use vstd::prelude::*;
use vstd::utf8::{
    decode_utf8, decode_utf8_encode_utf8, encode_utf8, encode_utf8_decode_utf8,
    encode_utf8_valid_utf8, valid_utf8,
};

use crate::error::DecodeError;

verus! {

/// Length bytes at or above this value carry the compression-pointer tag
/// (top two bits set).
pub const COMPRESSION_TAG: u8 = 0xC0;

/// Largest length of a single label on the wire.
pub const MAX_LABEL_LEN: u8 = 63;

/// The outcome of reading a label sequence at `pos`: the labels as text and
/// the offset just past the terminating zero byte. A length byte of 0 ends
/// the name; one with both top bits set is a compression pointer and is
/// refused; any other is the byte length of the label that follows.
pub open spec fn parse_labels(buf: Seq<u8>, pos: int) -> Result<(Seq<Seq<char>>, int), DecodeError>
    decreases buf.len() - pos,
{
    if pos < 0 || pos >= buf.len() {
        Err(DecodeError::BufferUnderrun)
    } else {
        let n = buf[pos] as int;
        if n == 0 {
            Ok((Seq::empty(), pos + 1))
        } else if buf[pos] >= COMPRESSION_TAG {
            Err(DecodeError::UnsupportedCompression)
        } else if pos + 1 + n > buf.len() {
            Err(DecodeError::BufferUnderrun)
        } else {
            let body = buf.subrange(pos + 1, pos + 1 + n);
            if !valid_utf8(body) {
                Err(DecodeError::InvalidLabelEncoding)
            } else {
                match parse_labels(buf, pos + 1 + n) {
                    Ok((rest, end)) => Ok((seq![decode_utf8(body)] + rest, end)),
                    Err(e) => Err(e),
                }
            }
        }
    }
}

/// Bytes taken by the labels themselves: each label's UTF-8 bytes plus its
/// length byte.
pub open spec fn labels_len(ls: Seq<Seq<char>>) -> int
    decreases ls.len(),
{
    if ls.len() == 0 {
        0
    } else {
        encode_utf8(ls[0]).len() + 1 + labels_len(ls.drop_first())
    }
}

/// Encoded length of a name: its labels plus the terminating zero byte.
pub open spec fn spec_encoded_length(ls: Seq<Seq<char>>) -> int {
    labels_len(ls) + 1
}

/// The wire encoding of a name.
pub open spec fn encode_labels(ls: Seq<Seq<char>>) -> Seq<u8>
    decreases ls.len(),
{
    if ls.len() == 0 {
        seq![0u8]
    } else {
        let b = encode_utf8(ls[0]);
        seq![b.len() as u8] + b + encode_labels(ls.drop_first())
    }
}

/// A name whose every label fits a length byte: between 1 and 63 bytes.
pub open spec fn labels_encodable(ls: Seq<Seq<char>>) -> bool {
    forall|i: int| 0 <= i < ls.len() ==> 1 <= #[trigger] encode_utf8(ls[i]).len() <= MAX_LABEL_LEN
}

/// The text views of a vector of labels.
pub open spec fn names_view(v: Seq<String>) -> Seq<Seq<char>> {
    v.map_values(|s: String| s@)
}

/// Relies on std::str::from_utf8: it succeeds exactly on valid UTF-8, and
/// the text it returns is what those bytes encode.
#[verifier::external_body]
fn utf8_text(b: &[u8]) -> (r: Option<&str>)
    ensures
        r is Some <==> valid_utf8(b@),
        r matches Some(s) ==> s@ == decode_utf8(b@),
{
    std::str::from_utf8(b).ok()
}


/// Puts already-read labels in front of the outcome of reading the rest.
pub open spec fn prepend_labels(
    acc: Seq<Seq<char>>,
    res: Result<(Seq<Seq<char>>, int), DecodeError>,
) -> Result<(Seq<Seq<char>>, int), DecodeError> {
    match res {
        Ok((rest, end)) => Ok((acc + rest, end)),
        Err(e) => Err(e),
    }
}

/// Decodes the length-prefixed labels that start at `start`, up to and
/// including the terminating zero byte. On success returns the labels and
/// the offset just past the terminator.
pub fn decode_labels(buf: &[u8], start: usize) -> (r: Result<(Vec<String>, usize), DecodeError>)
    ensures
        match parse_labels(buf@, start as int) {
            Ok((ls, end)) => r matches Ok((v, e)) && names_view(v@) == ls && e == end,
            Err(err) => r == Err::<(Vec<String>, usize), DecodeError>(err),
        },
{
    let mut labels: Vec<String> = Vec::new();
    let mut pos: usize = start;
    loop
        invariant
            parse_labels(buf@, start as int) == prepend_labels(
                names_view(labels@),
                parse_labels(buf@, pos as int),
            ),
        decreases buf@.len() - pos,
    {
        if pos >= buf.len() {
            return Err(DecodeError::BufferUnderrun);
        }
        let n = buf[pos];
        if n == 0 {
            proof {
                assert(names_view(labels@) + Seq::<Seq<char>>::empty() =~= names_view(labels@));
            }
            return Ok((labels, pos + 1));
        }
        if n >= COMPRESSION_TAG {
            return Err(DecodeError::UnsupportedCompression);
        }
        if n as usize > buf.len() - pos - 1 {
            return Err(DecodeError::BufferUnderrun);
        }
        let body_end: usize = pos + 1 + n as usize;
        let body = &buf[pos + 1..body_end];
        match utf8_text(body) {
            None => {
                return Err(DecodeError::InvalidLabelEncoding);
            },
            Some(text) => {
                let label = text.to_owned();
                let ghost before = names_view(labels@);
                labels.push(label);
                proof {
                    assert(names_view(labels@) =~= before + seq![label@]);
                    match parse_labels(buf@, body_end as int) {
                        Ok((rest, end)) => {
                            assert(before + (seq![label@] + rest) =~= names_view(labels@) + rest);
                        },
                        Err(_) => {},
                    }
                }
                pos = body_end;
            },
        }
    }
}

/// A suffix of a name never takes more bytes than the whole name.
proof fn lemma_labels_len_suffix(ls: Seq<Seq<char>>, i: int)
    requires
        0 <= i <= ls.len(),
    ensures
        0 <= labels_len(ls.subrange(i, ls.len() as int)) <= labels_len(ls),
    decreases i,
{
    if i == 0 {
        assert(ls.subrange(0, ls.len() as int) =~= ls);
        lemma_labels_len_nonneg(ls);
    } else {
        lemma_labels_len_suffix(ls, i - 1);
        assert(ls.subrange(i - 1, ls.len() as int).drop_first() =~= ls.subrange(i, ls.len() as int));
        lemma_labels_len_nonneg(ls.subrange(i, ls.len() as int));
    }
}

/// A name takes a nonnegative number of bytes.
pub proof fn lemma_labels_len_nonneg(ls: Seq<Seq<char>>)
    ensures
        labels_len(ls) >= 0,
    decreases ls.len(),
{
    if ls.len() > 0 {
        lemma_labels_len_nonneg(ls.drop_first());
    }
}

/// The number of bytes that `labels` take on the wire: one length byte and
/// the UTF-8 bytes of each label, and one terminating byte.
pub fn encoded_length(labels: &Vec<String>) -> (r: usize)
    requires
        spec_encoded_length(names_view(labels@)) <= usize::MAX,
    ensures
        r == spec_encoded_length(names_view(labels@)),
{
    let ghost ls = names_view(labels@);
    let mut acc: usize = 0;
    let mut i: usize = labels.len();
    while i > 0
        invariant
            i <= labels@.len(),
            ls == names_view(labels@),
            labels_len(ls) + 1 <= usize::MAX,
            acc == labels_len(ls.subrange(i as int, ls.len() as int)),
        decreases i,
    {
        i = i - 1;
        proof {
            lemma_labels_len_suffix(ls, i as int);
            assert(ls.subrange(i as int, ls.len() as int).drop_first() =~= ls.subrange(
                i as int + 1,
                ls.len() as int,
            ));
        }
        let n = labels[i].as_str().len();
        acc = acc + n + 1;
    }
    proof {
        assert(ls.subrange(0, ls.len() as int) =~= ls);
    }
    acc + 1
}


/// Decoding a name consumes exactly its encoded length: the offset after a
/// successful decode lies `spec_encoded_length` bytes past the start.
pub proof fn lemma_decode_consumes_encoded_length(buf: Seq<u8>, pos: int)
    requires
        parse_labels(buf, pos) is Ok,
    ensures
        parse_labels(buf, pos)->Ok_0.1 - pos == spec_encoded_length(parse_labels(buf, pos)->Ok_0.0),
    decreases buf.len() - pos,
{
    let n = buf[pos] as int;
    if n != 0 {
        let body = buf.subrange(pos + 1, pos + 1 + n);
        decode_utf8_encode_utf8(body);
        lemma_decode_consumes_encoded_length(buf, pos + 1 + n);
        let ls = parse_labels(buf, pos)->Ok_0.0;
        assert(ls.drop_first() =~= parse_labels(buf, pos + 1 + n)->Ok_0.0);
    }
}


/// The encoding of a name is exactly `spec_encoded_length` bytes long.
pub proof fn lemma_encoding_length(ls: Seq<Seq<char>>)
    ensures
        encode_labels(ls).len() == spec_encoded_length(ls),
    decreases ls.len(),
{
    if ls.len() > 0 {
        lemma_encoding_length(ls.drop_first());
    }
}

proof fn lemma_round_trip_at(ls: Seq<Seq<char>>, buf: Seq<u8>, pos: int)
    requires
        labels_encodable(ls),
        0 <= pos,
        pos + encode_labels(ls).len() <= buf.len(),
        buf.subrange(pos, pos + encode_labels(ls).len()) == encode_labels(ls),
    ensures
        parse_labels(buf, pos) == Ok::<(Seq<Seq<char>>, int), DecodeError>(
            (ls, pos + encode_labels(ls).len()),
        ),
    decreases ls.len(),
{
    let enc = encode_labels(ls);
    assert(buf[pos] == enc[0]);
    if ls.len() > 0 {
        let b = encode_utf8(ls[0]);
        let rest = ls.drop_first();
        let n = b.len() as int;
        assert(1 <= encode_utf8(ls[0]).len() <= MAX_LABEL_LEN);
        assert(enc == seq![b.len() as u8] + b + encode_labels(rest));
        assert(buf.subrange(pos + 1, pos + 1 + n) =~= b) by {
            assert forall|j: int| 0 <= j < n implies buf.subrange(pos + 1, pos + 1 + n)[j] == b[j] by {
                assert(buf[pos + 1 + j] == enc[1 + j]);
            }
        }
        encode_utf8_valid_utf8(ls[0]);
        encode_utf8_decode_utf8(ls[0]);
        let tail = encode_labels(rest);
        assert(buf.subrange(pos + 1 + n, pos + 1 + n + tail.len()) =~= tail) by {
            assert forall|j: int| 0 <= j < tail.len() implies buf.subrange(
                pos + 1 + n,
                pos + 1 + n + tail.len(),
            )[j] == tail[j] by {
                assert(buf[pos + 1 + n + j] == enc[1 + n + j]);
            }
        }
        assert(labels_encodable(rest)) by {
            assert forall|i: int| 0 <= i < rest.len() implies 1 <= #[trigger] encode_utf8(rest[i]).len()
                <= MAX_LABEL_LEN by {
                assert(rest[i] == ls[i + 1]);
            }
        }
        lemma_round_trip_at(rest, buf, pos + 1 + n);
        assert(buf[pos] as int == n);
        assert(enc.len() == 1 + n + tail.len());
        assert(seq![decode_utf8(b)] + rest =~= ls);
        assert(parse_labels(buf, pos + 1 + n) == Ok::<(Seq<Seq<char>>, int), DecodeError>(
            (rest, pos + 1 + n + tail.len()),
        ));
        assert(buf[pos] != 0 && buf[pos] < COMPRESSION_TAG && pos + 1 + n <= buf.len());
        assert(valid_utf8(buf.subrange(pos + 1, pos + 1 + n)));
    } else {
        assert(ls =~= Seq::<Seq<char>>::empty());
    }
}

/// Round trip: decoding the encoding of a name whose labels are each 1 to 63
/// bytes long gives back that name, and stops just past its encoding,
/// whatever bytes follow it.
pub proof fn lemma_labels_round_trip(ls: Seq<Seq<char>>, tail: Seq<u8>)
    requires
        labels_encodable(ls),
    ensures
        parse_labels(encode_labels(ls) + tail, 0) == Ok::<(Seq<Seq<char>>, int), DecodeError>(
            (ls, spec_encoded_length(ls)),
        ),
{
    let buf = encode_labels(ls) + tail;
    assert(buf.subrange(0, encode_labels(ls).len() as int) =~= encode_labels(ls));
    lemma_round_trip_at(ls, buf, 0);
    lemma_encoding_length(ls);
}

/// A length byte with its top two bits set is refused as a compression
/// pointer; it is never read as the length of a label.
pub proof fn lemma_compression_pointer_rejected(buf: Seq<u8>, pos: int)
    requires
        0 <= pos < buf.len(),
        buf[pos] & 0xC0 == 0xC0,
    ensures
        parse_labels(buf, pos) == Err::<(Seq<Seq<char>>, int), DecodeError>(
            DecodeError::UnsupportedCompression,
        ),
{
    let b = buf[pos];
    assert(b & 0xC0 == 0xC0 ==> b >= 0xC0) by (bit_vector);
}

/// Reading a name from a prefix of the buffer: the same outcome where the
/// prefix holds the whole name, an underrun where it cuts the name short.
pub proof fn lemma_labels_prefix(buf: Seq<u8>, pos: int, k: int)
    requires
        parse_labels(buf, pos) is Ok,
        0 <= k <= buf.len(),
    ensures
        k < parse_labels(buf, pos)->Ok_0.1 ==> parse_labels(buf.subrange(0, k), pos) == Err::<
            (Seq<Seq<char>>, int),
            DecodeError,
        >(DecodeError::BufferUnderrun),
        k >= parse_labels(buf, pos)->Ok_0.1 ==> parse_labels(buf.subrange(0, k), pos)
            == parse_labels(buf, pos),
    decreases buf.len() - pos,
{
    let pre = buf.subrange(0, k);
    let end = parse_labels(buf, pos)->Ok_0.1;
    let n = buf[pos] as int;
    lemma_decode_consumes_encoded_length(buf, pos);
    lemma_labels_len_nonneg(parse_labels(buf, pos)->Ok_0.0);
    if pos < k {
        assert(pre[pos] == buf[pos]);
        if n != 0 {
            lemma_labels_prefix(buf, pos + 1 + n, k);
            lemma_decode_consumes_encoded_length(buf, pos + 1 + n);
            lemma_labels_len_nonneg(parse_labels(buf, pos + 1 + n)->Ok_0.0);
            if pos + 1 + n <= k {
                assert(pre.subrange(pos + 1, pos + 1 + n) =~= buf.subrange(pos + 1, pos + 1 + n));
            }
        }
    }
}

} // verus!
