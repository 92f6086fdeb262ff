//! The bytes exchanged with the transcription server: the multipart body a
//! recording is uploaded in, and the status code and body of an HTTP
//! response.
use vstd::prelude::*;
use vstd::string::StringSliceAdditionalSpecFns;

verus! {

/// The multipart body of a transcription request: the `language` field,
/// then the `audio` file, each part opened by `--boundary`, and the body
/// closed by `--boundary--`.
pub open spec fn multipart_body(boundary: Seq<u8>, language: Seq<u8>, wav: Seq<u8>) -> Seq<u8> {
    "--".spec_bytes() + boundary + "\r\nContent-Disposition: form-data; name=\"language\"\r\n\r\n".spec_bytes()
        + language + "\r\n--".spec_bytes() + boundary
        + "\r\nContent-Disposition: form-data; name=\"audio\"; filename=\"audio.wav\"\r\nContent-Type: audio/wav\r\n\r\n".spec_bytes()
        + wav + "\r\n--".spec_bytes() + boundary + "--\r\n".spec_bytes()
}

fn push_all(out: &mut Vec<u8>, bytes: &[u8])
    ensures
        final(out)@ == old(out)@ + bytes@,
{
    let mut i: usize = 0;
    while i < bytes.len()
        invariant
            i <= bytes@.len(),
            out@ == old(out)@ + bytes@.take(i as int),
        decreases bytes@.len() - i,
    {
        out.push(bytes[i]);
        i = i + 1;
        assert(out@ =~= old(out)@ + bytes@.take(i as int));
    }
    assert(bytes@.take(bytes@.len() as int) =~= bytes@);
}

/// The multipart body of a transcription request.
pub fn encode_multipart(boundary: &str, language: &str, wav: &[u8]) -> (r: Vec<u8>)
    ensures
        r@ == multipart_body(boundary.spec_bytes(), language.spec_bytes(), wav@),
{
    let mut out: Vec<u8> = Vec::new();
    push_all(&mut out, "--".as_bytes());
    push_all(&mut out, boundary.as_bytes());
    push_all(&mut out, "\r\nContent-Disposition: form-data; name=\"language\"\r\n\r\n".as_bytes());
    push_all(&mut out, language.as_bytes());
    push_all(&mut out, "\r\n--".as_bytes());
    push_all(&mut out, boundary.as_bytes());
    push_all(
        &mut out,
        "\r\nContent-Disposition: form-data; name=\"audio\"; filename=\"audio.wav\"\r\nContent-Type: audio/wav\r\n\r\n".as_bytes(),
    );
    push_all(&mut out, wav);
    push_all(&mut out, "\r\n--".as_bytes());
    push_all(&mut out, boundary.as_bytes());
    push_all(&mut out, "--\r\n".as_bytes());
    assert(out@ =~= multipart_body(boundary.spec_bytes(), language.spec_bytes(), wav@));
    out
}

/// The multipart body reads back: after `--`, the boundary and the header
/// block of the language part (which do not depend on the language) come
/// exactly the language's bytes, then `\r\n--` and the boundary; after the
/// header block of the audio part come exactly the WAV bytes, and the body
/// ends with `\r\n--`, the boundary and `--\r\n`.
pub proof fn lemma_multipart_read_back(boundary: Seq<u8>, language: Seq<u8>, wav: Seq<u8>)
    ensures
        ({
            let x = multipart_body(boundary, language, wav);
            let open = "--".spec_bytes();
            let lang_head = "\r\nContent-Disposition: form-data; name=\"language\"\r\n\r\n".spec_bytes();
            let sep = "\r\n--".spec_bytes();
            let audio_head = "\r\nContent-Disposition: form-data; name=\"audio\"; filename=\"audio.wav\"\r\nContent-Type: audio/wav\r\n\r\n".spec_bytes();
            let close = "--\r\n".spec_bytes();
            let a = open.len() + boundary.len() + lang_head.len();
            let b = a + language.len();
            let c = b + sep.len() + boundary.len() + audio_head.len();
            let d = c + wav.len();
            &&& x.len() == d + sep.len() + boundary.len() + close.len()
            &&& x.subrange(0, a as int) == open + boundary + lang_head
            &&& x.subrange(a as int, b as int) == language
            &&& x.subrange(b as int, c as int) == sep + boundary + audio_head
            &&& x.subrange(c as int, d as int) == wav
            &&& x.subrange(d as int, x.len() as int) == sep + boundary + close
        }),
{
    let x = multipart_body(boundary, language, wav);
    let open = "--".spec_bytes();
    let lang_head = "\r\nContent-Disposition: form-data; name=\"language\"\r\n\r\n".spec_bytes();
    let sep = "\r\n--".spec_bytes();
    let audio_head = "\r\nContent-Disposition: form-data; name=\"audio\"; filename=\"audio.wav\"\r\nContent-Type: audio/wav\r\n\r\n".spec_bytes();
    let close = "--\r\n".spec_bytes();
    let a = open.len() + boundary.len() + lang_head.len();
    let b = a + language.len();
    let c = b + sep.len() + boundary.len() + audio_head.len();
    let d = c + wav.len();
    let p1 = open + boundary + lang_head;
    let p2 = sep + boundary + audio_head;
    let p3 = sep + boundary + close;
    assert(x =~= p1 + language + p2 + wav + p3);
    assert(x.subrange(0, a as int) =~= p1);
    assert(x.subrange(a as int, b as int) =~= language);
    assert(x.subrange(b as int, c as int) =~= p2);
    assert(x.subrange(c as int, d as int) =~= wav);
    assert(x.subrange(d as int, x.len() as int) =~= p3);
}

/// Whether an empty line (`\r\n\r\n`) starts at `i`.
pub open spec fn header_end_at(b: Seq<u8>, i: int) -> bool {
    0 <= i && i + 4 <= b.len() && b[i] == 13 && b[i + 1] == 10 && b[i + 2] == 13 && b[i + 3] == 10
}

/// The first position at or after `from` where the head of a response
/// ends, if any.
pub open spec fn first_header_end(b: Seq<u8>, from: int) -> Option<int>
    decreases b.len() - from,
{
    if from < 0 || from + 4 > b.len() {
        None
    } else if header_end_at(b, from) {
        Some(from)
    } else {
        first_header_end(b, from + 1)
    }
}

/// The first space in `b` at or after `from` and before `limit`, if any.
pub open spec fn first_space(b: Seq<u8>, from: int, limit: int) -> Option<int>
    decreases limit - from,
{
    if from < 0 || from >= limit || from >= b.len() {
        None
    } else if b[from] == 32 {
        Some(from)
    } else {
        first_space(b, from + 1, limit)
    }
}

pub open spec fn is_digit(c: u8) -> bool {
    48 <= c <= 57
}

/// The status code and the start of the body of a response: the head ends
/// at the first empty line; the code is the three digits that follow the
/// first space of the head and are followed by a space or the end of the
/// line.
pub open spec fn response_parts(b: Seq<u8>) -> Option<(nat, nat)> {
    match first_header_end(b, 0) {
        None => None,
        Some(end) => match first_space(b, 0, end) {
            None => None,
            Some(s) => if s + 4 <= end && is_digit(b[s + 1]) && is_digit(b[s + 2]) && is_digit(
                b[s + 3],
            ) && (b[s + 4] == 32 || b[s + 4] == 13) {
                Some(
                    (
                        (100 * (b[s + 1] - 48) + 10 * (b[s + 2] - 48) + (b[s + 3] - 48)) as nat,
                        (end + 4) as nat,
                    ),
                )
            } else {
                None
            },
        },
    }
}

fn find_header_end(b: &[u8]) -> (r: Option<usize>)
    ensures
        match r {
            Some(i) => first_header_end(b@, 0) == Some(i as int) && i + 4 <= b@.len(),
            None => first_header_end(b@, 0) is None,
        },
{
    let len = b.len();
    let mut i: usize = 0;
    while i <= len && len - i >= 4
        invariant
            len == b@.len(),
            first_header_end(b@, 0) == first_header_end(b@, i as int),
        decreases len - i,
    {
        if b[i] == 13 && b[i + 1] == 10 && b[i + 2] == 13 && b[i + 3] == 10 {
            return Some(i);
        }
        i = i + 1;
    }
    None
}

fn find_space(b: &[u8], limit: usize) -> (r: Option<usize>)
    requires
        limit <= b@.len(),
    ensures
        match r {
            Some(i) => first_space(b@, 0, limit as int) == Some(i as int) && i < limit,
            None => first_space(b@, 0, limit as int) is None,
        },
{
    let mut i: usize = 0;
    while i < limit
        invariant
            limit <= b@.len(),
            first_space(b@, 0, limit as int) == first_space(b@, i as int, limit as int),
        decreases limit - i,
    {
        if b[i] == 32 {
            return Some(i);
        }
        i = i + 1;
    }
    None
}

/// The status code of a response and the position its body starts at, or
/// `None` where the response is malformed.
pub fn split_response(b: &[u8]) -> (r: Option<(u16, usize)>)
    ensures
        match r {
            Some((code, start)) => response_parts(b@) == Some((code as nat, start as nat)),
            None => response_parts(b@) is None,
        },
{
    let end = match find_header_end(b) {
        Some(e) => e,
        None => return None,
    };
    let s = match find_space(b, end) {
        Some(s) => s,
        None => return None,
    };
    if end - s < 4 {
        return None;
    }
    let (d1, d2, d3, after) = (b[s + 1], b[s + 2], b[s + 3], b[s + 4]);
    if 48 <= d1 && d1 <= 57 && 48 <= d2 && d2 <= 57 && 48 <= d3 && d3 <= 57 && (after == 32
        || after == 13) {
        let code: u16 = 100 * ((d1 - 48) as u16) + 10 * ((d2 - 48) as u16) + ((d3 - 48) as u16);
        Some((code, end + 4))
    } else {
        None
    }
}

proof fn lemma_first_header_end_at(b: Seq<u8>, from: int, t: int)
    requires
        0 <= from <= t,
        header_end_at(b, t),
        forall|i: int| from <= i < t ==> !header_end_at(b, i),
    ensures
        first_header_end(b, from) == Some(t),
    decreases t - from,
{
    if from < t {
        lemma_first_header_end_at(b, from + 1, t);
    }
}

proof fn lemma_first_space_at(b: Seq<u8>, from: int, limit: int, s: int)
    requires
        0 <= from <= s < limit,
        s < b.len(),
        b[s] == 32,
        forall|i: int| from <= i < s ==> b[i] != 32,
    ensures
        first_space(b, from, limit) == Some(s),
    decreases s - from,
{
    if from < s {
        lemma_first_space_at(b, from + 1, limit, s);
    }
}

/// A response whose head starts with `HTTP/1.1 `, three digits and a space
/// or the end of the line, holds no empty line and does not end in a line
/// break, followed by an empty line and any body, is read whatever the
/// length of its head: its status code is those three digits and its body
/// starts right after the empty line that ends the head.
pub proof fn lemma_response_read(head: Seq<u8>, body: Seq<u8>)
    requires
        head.len() >= 12,
        head.subrange(0, 9) == seq![72u8, 84, 84, 80, 47, 49, 46, 49, 32],
        48 <= head[9] <= 57,
        48 <= head[10] <= 57,
        48 <= head[11] <= 57,
        head.len() == 12 || head[12] == 32 || head[12] == 13,
        forall|i: int| 0 <= i < head.len() ==> !#[trigger] header_end_at(head, i),
        head[head.len() - 1] != 13 && head[head.len() - 1] != 10,
    ensures
        response_parts(head + seq![13u8, 10, 13, 10] + body) == Some(
            (
                (100 * (head[9] - 48) + 10 * (head[10] - 48) + (head[11] - 48)) as nat,
                (head.len() + 4) as nat,
            ),
        ),
{
    let b = head + seq![13u8, 10, 13, 10] + body;
    let t = head.len() as int;
    assert(header_end_at(b, t));
    assert forall|i: int| 0 <= i < t implies !header_end_at(b, i) by {
        if i + 4 <= t {
            assert(!header_end_at(head, i));
            assert(b[i] == head[i] && b[i + 1] == head[i + 1] && b[i + 2] == head[i + 2] && b[i + 3] == head[i + 3]);
        } else {
            assert(b[t - 1] == head[t - 1]);
        }
    }
    lemma_first_header_end_at(b, 0, t);
    assert forall|i: int| 0 <= i < 8 implies b[i] != 32 by {
        assert(b[i] == head.subrange(0, 9)[i]);
    }
    assert(b[8] == head.subrange(0, 9)[8]);
    lemma_first_space_at(b, 0, t, 8);
    assert(b[9] == head[9] && b[10] == head[10] && b[11] == head[11]);
    assert(b[12] == 32 || b[12] == 13);
}

} // verus!
