use vstd::prelude::*;

use crate::error::DecodeError;
use crate::labels::lemma_labels_len_nonneg;
use crate::message::{
    be16, decode_query, lemma_question_span, parse_question, parse_query, question_size, questions_size,
    questions_view, QuestionSize, QuestionView, HEADER_LEN,
};

verus! {

/// High flags byte of a reply: QR (this is a response) and AA (the answer
/// is authoritative); opcode 0.
pub const RESPONSE_FLAGS_HI: u8 = 0x84;

/// Low flags byte of a reply: RCODE 0 (success).
pub const RESPONSE_FLAGS_LO: u8 = 0x00;

/// Owner name of the answer: a pointer to the question's name at offset 12.
pub const ANSWER_NAME_POINTER: u16 = 0xC00C;

/// Record type of the answer: an IPv4 address record.
pub const ANSWER_TYPE: u16 = 1;

/// Record class of the answer: the internet.
pub const ANSWER_CLASS: u16 = 1;

/// Time to live of the answer, in seconds.
pub const ANSWER_TTL: u32 = 600;

/// Length of the answer's data: one IPv4 address.
pub const ANSWER_RDLENGTH: u16 = 4;

/// The address every answer carries (1.1.1.1).
pub const ANSWER_ADDRESS: u32 = 0x0101_0101;

/// Big-endian bytes of a 16-bit value.
pub open spec fn u16_bytes(x: u16) -> Seq<u8> {
    seq![(x / 256) as u8, (x % 256) as u8]
}

/// Big-endian bytes of a 32-bit value.
pub open spec fn u32_bytes(x: u32) -> Seq<u8> {
    seq![(x / 0x100_0000) as u8, (x / 0x1_0000 % 256) as u8, (x / 256 % 256) as u8, (x % 256) as u8]
}

/// The fixed resource record appended to every reply.
pub open spec fn answer_record() -> Seq<u8> {
    u16_bytes(ANSWER_NAME_POINTER) + u16_bytes(ANSWER_TYPE) + u16_bytes(ANSWER_CLASS) + u32_bytes(
        ANSWER_TTL,
    ) + u16_bytes(ANSWER_RDLENGTH) + u32_bytes(ANSWER_ADDRESS)
}

/// The copied header and question with the reply's header fields in place:
/// flags of a successful authoritative response, one answer, and no
/// authority or additional records (those sections are not copied).
pub open spec fn patch_header(h: Seq<u8>) -> Seq<u8> {
    h.update(2, RESPONSE_FLAGS_HI).update(3, RESPONSE_FLAGS_LO).update(6, 0).update(7, 1).update(
        8,
        0,
    ).update(9, 0).update(10, 0).update(11, 0)
}

/// The reply to the query in `buf`: its header and question section copied,
/// the header patched, and the fixed answer appended.
pub open spec fn spec_build_response(buf: Seq<u8>) -> Result<Seq<u8>, DecodeError> {
    match parse_query(buf) {
        Err(e) => Err(e),
        Ok((_, _, end)) => Ok(patch_header(buf.subrange(0, end)) + answer_record()),
    }
}

fn push_u16(v: &mut Vec<u8>, x: u16)
    ensures
        final(v)@ == old(v)@ + u16_bytes(x),
{
    v.push((x / 256) as u8);
    v.push((x % 256) as u8);
    proof {
        assert(final(v)@ =~= old(v)@ + u16_bytes(x));
    }
}

fn push_u32(v: &mut Vec<u8>, x: u32)
    ensures
        final(v)@ == old(v)@ + u32_bytes(x),
{
    v.push((x / 0x100_0000) as u8);
    v.push((x / 0x1_0000 % 256) as u8);
    v.push((x / 256 % 256) as u8);
    v.push((x % 256) as u8);
    proof {
        assert(final(v)@ =~= old(v)@ + u32_bytes(x));
    }
}

/// Builds the reply to the query in `query_buf`: the header and question
/// are copied, the header is marked as a successful authoritative response
/// with one answer, and the fixed address record is appended. A query that
/// does not decode gets no reply, only the decode error.
pub fn build_response(query_buf: &[u8]) -> (r: Result<Vec<u8>, DecodeError>)
    ensures
        match spec_build_response(query_buf@) {
            Ok(bytes) => r matches Ok(v) && v@ == bytes,
            Err(err) => r == Err::<Vec<u8>, DecodeError>(err),
        },
{
    let query = match decode_query(query_buf) {
        Err(e) => {
            return Err(e);
        },
        Ok(q) => q,
    };
    let buf_len = query_buf.len();
    proof {
        let (h, q, end) = parse_query(query_buf@)->Ok_0;
        assert(parse_question(query_buf@, HEADER_LEN as int) == Ok::<(QuestionView, int), DecodeError>((q, end)));
        lemma_question_span(query_buf@, HEADER_LEN as int);
        lemma_labels_len_nonneg(q.name);
        assert(end <= query_buf@.len());
        let qs = questions_view(query.questions@);
        assert(qs[0] == q);
        assert(qs.drop_first() =~= Seq::<QuestionView>::empty());
        assert(questions_size(qs.drop_first()) == 0);
        assert(query.questions.spec_size() == question_size(q));
        assert(HEADER_LEN + query.questions.spec_size() == end);
    }
    let end = query.question_index_end();
    let mut result: Vec<u8> = Vec::new();
    let mut i: usize = 0;
    while i < end
        invariant
            i <= end <= query_buf@.len(),
            result@ == query_buf@.subrange(0, i as int),
        decreases end - i,
    {
        result.push(query_buf[i]);
        i = i + 1;
        proof {
            assert(result@ =~= query_buf@.subrange(0, i as int));
        }
    }
    result.set(2, RESPONSE_FLAGS_HI);
    result.set(3, RESPONSE_FLAGS_LO);
    result.set(6, 0);
    result.set(7, 1);
    result.set(8, 0);
    result.set(9, 0);
    result.set(10, 0);
    result.set(11, 0);
    push_u16(&mut result, ANSWER_NAME_POINTER);
    push_u16(&mut result, ANSWER_TYPE);
    push_u16(&mut result, ANSWER_CLASS);
    push_u32(&mut result, ANSWER_TTL);
    push_u16(&mut result, ANSWER_RDLENGTH);
    push_u32(&mut result, ANSWER_ADDRESS);
    proof {
        assert(result@ =~= patch_header(query_buf@.subrange(0, end as int)) + answer_record());
    }
    Ok(result)
}


/// The reply to any query that decodes keeps the transaction ID and the
/// question section byte for byte, has the response bit set, and announces
/// exactly one answer.
pub proof fn lemma_response_header(buf: Seq<u8>)
    requires
        parse_query(buf) is Ok,
    ensures
        spec_build_response(buf) matches Ok(r) && {
            let end = parse_query(buf)->Ok_0.2;
            &&& r[0] == buf[0]
            &&& r[1] == buf[1]
            &&& r[2] & 0x80 == 0x80
            &&& be16(r, 6) == 1
            &&& r.subrange(HEADER_LEN as int, end) == buf.subrange(HEADER_LEN as int, end)
        },
{
    let (h, q, end) = parse_query(buf)->Ok_0;
    assert(parse_question(buf, HEADER_LEN as int) == Ok::<(QuestionView, int), DecodeError>((q, end)));
    lemma_question_span(buf, HEADER_LEN as int);
    lemma_labels_len_nonneg(q.name);
    let r = spec_build_response(buf)->Ok_0;
    assert(r[2] == RESPONSE_FLAGS_HI);
    assert(RESPONSE_FLAGS_HI & 0x80 == 0x80) by (bit_vector);
    assert(r.subrange(HEADER_LEN as int, end) =~= buf.subrange(HEADER_LEN as int, end));
}


/// A recorded reply to a query for `example.com` (transaction ID 0x1823,
/// TTL 400, address 1.1.1.1), kept as a reference message.
pub fn example_com_response() -> (r: Vec<u8>)
    ensures
        r@ == seq![
            0x18u8, 0x23, 0x84, 0x00, 0x00, 0x01, 0x00, 0x01, 0x00, 0x00, 0x00, 0x00,
            0x07, 0x65, 0x78, 0x61, 0x6d, 0x70, 0x6c, 0x65, 0x03, 0x63, 0x6f, 0x6d, 0x00,
            0x00, 0x01, 0x00, 0x01, 0xc0, 0x0c, 0x00, 0x01, 0x00, 0x01, 0x00, 0x00, 0x01,
            0x90, 0x00, 0x04, 0x01, 0x01, 0x01, 0x01,
        ],
{
    vec![
        0x18, 0x23, 0x84, 0x00, 0x00, 0x01, 0x00, 0x01, 0x00, 0x00, 0x00, 0x00,
        0x07, 0x65, 0x78, 0x61, 0x6d, 0x70, 0x6c, 0x65, 0x03, 0x63, 0x6f, 0x6d, 0x00,
        0x00, 0x01, 0x00, 0x01, 0xc0, 0x0c, 0x00, 0x01, 0x00, 0x01, 0x00, 0x00, 0x01,
        0x90, 0x00, 0x04, 0x01, 0x01, 0x01, 0x01,
    ]
}

} // verus!
