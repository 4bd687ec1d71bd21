use vstd::prelude::*;
use vstd::utf8::encode_utf8;

use crate::error::DecodeError;
use crate::labels::{
    decode_labels, encoded_length, lemma_decode_consumes_encoded_length, lemma_labels_len_nonneg, lemma_labels_prefix,
    names_view, parse_labels, spec_encoded_length,
};

verus! {

/// Size of the fixed header; the question section starts right after it.
pub const HEADER_LEN: usize = 12;

/// The fixed 12-byte message header, each field as read big-endian.
#[derive(Clone, Copy, Debug, PartialEq, Eq, Structural)]
pub struct Header {
    pub id: u16,
    pub flags: u16,
    pub qdcount: u16,
    pub ancount: u16,
    pub nscount: u16,
    pub arcount: u16,
}

/// One question: the name asked for, its query type and query class.
#[derive(Clone, Debug)]
pub struct Question {
    pub qname: Vec<String>,
    pub qtype: u16,
    pub qclass: u16,
}

/// What a question means: the labels as text, the type and the class.
pub ghost struct QuestionView {
    pub name: Seq<Seq<char>>,
    pub qtype: u16,
    pub qclass: u16,
}

impl View for Question {
    type V = QuestionView;

    open spec fn view(&self) -> QuestionView {
        QuestionView { name: names_view(self.qname@), qtype: self.qtype, qclass: self.qclass }
    }
}

/// A decoded query: its header and its (single) question.
#[derive(Clone, Debug)]
pub struct Query {
    pub header: Header,
    pub questions: Vec<Question>,
}

/// The big-endian 16-bit value at `i`.
pub open spec fn be16(buf: Seq<u8>, i: int) -> u16 {
    (buf[i] as int * 256 + buf[i + 1] as int) as u16
}

/// The header at the start of `buf`.
pub open spec fn parse_header(buf: Seq<u8>) -> Result<Header, DecodeError> {
    if buf.len() < HEADER_LEN {
        Err(DecodeError::BufferUnderrun)
    } else {
        Ok(
            Header {
                id: be16(buf, 0),
                flags: be16(buf, 2),
                qdcount: be16(buf, 4),
                ancount: be16(buf, 6),
                nscount: be16(buf, 8),
                arcount: be16(buf, 10),
            },
        )
    }
}

/// The question that starts at `pos`, and the offset just past its class.
pub open spec fn parse_question(buf: Seq<u8>, pos: int) -> Result<(QuestionView, int), DecodeError> {
    match parse_labels(buf, pos) {
        Err(e) => Err(e),
        Ok((name, end)) => if end + 4 > buf.len() {
            Err(DecodeError::BufferUnderrun)
        } else {
            Ok(
                (
                    QuestionView { name, qtype: be16(buf, end), qclass: be16(buf, end + 2) },
                    end + 4,
                ),
            )
        },
    }
}

/// A whole query: its header, which must announce exactly one question, and
/// that question; with the offset at which the question section ends.
pub open spec fn parse_query(buf: Seq<u8>) -> Result<(Header, QuestionView, int), DecodeError> {
    match parse_header(buf) {
        Err(e) => Err(e),
        Ok(h) => if h.qdcount != 1 {
            Err(DecodeError::MultipleQuestionsUnsupported)
        } else {
            match parse_question(buf, HEADER_LEN as int) {
                Err(e) => Err(e),
                Ok((q, end)) => Ok((h, q, end)),
            }
        },
    }
}

/// Bytes a question takes on the wire: its name, then type and class.
pub open spec fn question_size(q: QuestionView) -> int {
    spec_encoded_length(q.name) + 4
}

/// Bytes a list of questions takes on the wire.
pub open spec fn questions_size(qs: Seq<QuestionView>) -> int
    decreases qs.len(),
{
    if qs.len() == 0 {
        0
    } else {
        question_size(qs[0]) + questions_size(qs.drop_first())
    }
}

/// The views of a vector of questions.
pub open spec fn questions_view(v: Seq<Question>) -> Seq<QuestionView> {
    v.map_values(|q: Question| q@)
}

fn read_be16(buf: &[u8], i: usize) -> (r: u16)
    requires
        i + 1 < buf@.len(),
    ensures
        r == be16(buf@, i as int),
{
    (buf[i] as u16) * 256 + (buf[i + 1] as u16)
}

/// Reads the fixed header at the start of `buf`.
pub fn decode_header(buf: &[u8]) -> (r: Result<Header, DecodeError>)
    ensures
        r == parse_header(buf@),
{
    if buf.len() < HEADER_LEN {
        return Err(DecodeError::BufferUnderrun);
    }
    Ok(
        Header {
            id: read_be16(buf, 0),
            flags: read_be16(buf, 2),
            qdcount: read_be16(buf, 4),
            ancount: read_be16(buf, 6),
            nscount: read_be16(buf, 8),
            arcount: read_be16(buf, 10),
        },
    )
}

/// Reads the question that starts at `start`: a name, then 2 bytes of type
/// and 2 of class. Returns it with the offset just past it.
pub fn decode_question(buf: &[u8], start: usize) -> (r: Result<(Question, usize), DecodeError>)
    ensures
        match parse_question(buf@, start as int) {
            Ok((q, end)) => r matches Ok((v, e)) && v@ == q && e == end,
            Err(err) => r == Err::<(Question, usize), DecodeError>(err),
        },
{
    match decode_labels(buf, start) {
        Err(e) => Err(e),
        Ok((qname, end)) => {
            if end > buf.len() || buf.len() - end < 4 {
                return Err(DecodeError::BufferUnderrun);
            }
            let qtype = read_be16(buf, end);
            let qclass = read_be16(buf, end + 2);
            Ok((Question { qname, qtype, qclass }, end + 4))
        },
    }
}

/// Reads the question section at the start of `buf`: one question.
pub fn decode_questions(buf: &[u8]) -> (r: Result<Vec<Question>, DecodeError>)
    ensures
        match parse_question(buf@, 0) {
            Ok((q, _)) => r matches Ok(v) && questions_view(v@) == seq![q],
            Err(err) => r == Err::<Vec<Question>, DecodeError>(err),
        },
{
    match decode_question(buf, 0) {
        Err(e) => Err(e),
        Ok((q, _)) => {
            let questions = vec![q];
            proof {
                assert(questions_view(questions@) =~= seq![q@]);
            }
            Ok(questions)
        },
    }
}

/// Reads a whole query: the header, which must announce exactly one
/// question, then that question at offset 12.
pub fn decode_query(buf: &[u8]) -> (r: Result<Query, DecodeError>)
    ensures
        match parse_query(buf@) {
            Ok((h, q, _)) => r matches Ok(v) && v.header == h && questions_view(v.questions@) == seq![q],
            Err(err) => r == Err::<Query, DecodeError>(err),
        },
{
    let header = match decode_header(buf) {
        Err(e) => {
            return Err(e);
        },
        Ok(h) => h,
    };
    if header.qdcount != 1 {
        return Err(DecodeError::MultipleQuestionsUnsupported);
    }
    match decode_question(buf, HEADER_LEN) {
        Err(e) => Err(e),
        Ok((q, _)) => {
            let questions = vec![q];
            proof {
                assert(questions_view(questions@) =~= seq![q@]);
            }
            Ok(Query { header, questions })
        },
    }
}


/// A decoded question spans exactly `question_size` bytes.
pub proof fn lemma_question_span(buf: Seq<u8>, pos: int)
    requires
        parse_question(buf, pos) is Ok,
    ensures
        parse_question(buf, pos)->Ok_0.1 - pos == question_size(parse_question(buf, pos)->Ok_0.0),
{
    lemma_decode_consumes_encoded_length(buf, pos);
}

/// A list of questions never takes less room than any of its suffixes.
proof fn lemma_questions_size_suffix(qs: Seq<QuestionView>, i: int)
    requires
        0 <= i <= qs.len(),
    ensures
        0 <= questions_size(qs.subrange(i, qs.len() as int)) <= questions_size(qs),
    decreases i,
{
    if i == 0 {
        assert(qs.subrange(0, qs.len() as int) =~= qs);
        lemma_questions_size_nonneg(qs);
    } else {
        lemma_questions_size_suffix(qs, i - 1);
        let prev = qs.subrange(i - 1, qs.len() as int);
        assert(prev.drop_first() =~= qs.subrange(i, qs.len() as int));
        lemma_labels_len_nonneg(prev[0].name);
        lemma_questions_size_nonneg(qs.subrange(i, qs.len() as int));
    }
}

proof fn lemma_questions_size_nonneg(qs: Seq<QuestionView>)
    ensures
        questions_size(qs) >= 0,
    decreases qs.len(),
{
    if qs.len() > 0 {
        lemma_labels_len_nonneg(qs[0].name);
        lemma_questions_size_nonneg(qs.drop_first());
    }
}

impl Question {
    /// Bytes this question takes on the wire: its name with one length
    /// byte per label and a terminator, then 2 bytes of type and 2 of class.
    pub fn size(&self) -> (r: usize)
        requires
            question_size(self@) <= usize::MAX,
        ensures
            r == question_size(self@),
    {
        encoded_length(&self.qname) + 4
    }
}

/// Room taken on the wire by a collection of questions.
pub trait QuestionSize {
    spec fn spec_size(&self) -> int;

    fn size(&self) -> (r: usize)
        requires
            self.spec_size() <= usize::MAX,
        ensures
            r == self.spec_size(),
    ;
}

impl QuestionSize for Vec<Question> {
    open spec fn spec_size(&self) -> int {
        questions_size(questions_view(self@))
    }

    fn size(&self) -> (r: usize) {
        let ghost qs = questions_view(self@);
        let mut acc: usize = 0;
        let mut i: usize = self.len();
        while i > 0
            invariant
                i <= self@.len(),
                qs == questions_view(self@),
                questions_size(qs) <= usize::MAX,
                acc == questions_size(qs.subrange(i as int, qs.len() as int)),
            decreases i,
        {
            i = i - 1;
            proof {
                lemma_questions_size_suffix(qs, i as int);
                assert(qs.subrange(i as int, qs.len() as int).drop_first() =~= qs.subrange(
                    i as int + 1,
                    qs.len() as int,
                ));
                lemma_labels_len_nonneg(qs[i as int].name);
            }
            let n = self[i].size();
            acc = acc + n;
        }
        proof {
            assert(qs.subrange(0, qs.len() as int) =~= qs);
        }
        acc
    }
}

impl Query {
    /// Offset of the question section: right after the fixed header.
    pub fn question_index_start() -> (r: usize)
        ensures
            r == HEADER_LEN,
    {
        HEADER_LEN
    }

    /// Offset at which the question section ends.
    pub fn question_index_end(&self) -> (r: usize)
        requires
            HEADER_LEN + self.questions.spec_size() <= usize::MAX,
        ensures
            r == HEADER_LEN + self.questions.spec_size(),
    {
        Query::question_index_start() + self.questions.size()
    }
}


/// A query cut off anywhere before the end of its question section fails to
/// decode with `BufferUnderrun`.
pub proof fn lemma_truncated_query_underruns(buf: Seq<u8>, k: int)
    requires
        parse_query(buf) is Ok,
        0 <= k < parse_query(buf)->Ok_0.2,
    ensures
        parse_query(buf.subrange(0, k)) == Err::<(Header, QuestionView, int), DecodeError>(
            DecodeError::BufferUnderrun,
        ),
{
    let pre = buf.subrange(0, k);
    let start = HEADER_LEN as int;
    lemma_question_span(buf, start);
    lemma_labels_len_nonneg(parse_question(buf, start)->Ok_0.0.name);
    if k >= HEADER_LEN {
        assert(parse_header(pre) == parse_header(buf));
        lemma_labels_prefix(buf, start, k);
    }
}

} // verus!
