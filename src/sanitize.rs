use vstd::prelude::*;
use vstd::string::StringSliceAdditionalSpecFns;
use vstd::utf8::*;

verus! {

/// The bytes that open a generated document: `<!DOCTYPE html>`.
pub open spec fn doctype_marker() -> Seq<u8> {
    seq![60u8, 33, 68, 79, 67, 84, 89, 80, 69, 32, 104, 116, 109, 108, 62]
}

/// The bytes that close a generated document: `</html>`.
pub open spec fn closing_marker() -> Seq<u8> {
    seq![60u8, 47, 104, 116, 109, 108, 62]
}

/// `m` appears in `s` starting at byte `i`.
pub open spec fn occurs_at(s: Seq<u8>, m: Seq<u8>, i: int) -> bool {
    &&& 0 <= i
    &&& i + m.len() <= s.len()
    &&& s.subrange(i, i + m.len()) == m
}

pub open spec fn occurs(s: Seq<u8>, m: Seq<u8>) -> bool {
    exists|i: int| occurs_at(s, m, i)
}

pub open spec fn is_first_occurrence(s: Seq<u8>, m: Seq<u8>, i: int) -> bool {
    occurs_at(s, m, i) && forall|j: int| 0 <= j < i ==> !occurs_at(s, m, j)
}

pub open spec fn is_last_occurrence(s: Seq<u8>, m: Seq<u8>, i: int) -> bool {
    occurs_at(s, m, i) && forall|j: int| i < j ==> !occurs_at(s, m, j)
}

/// Where the published document begins: the first `<!DOCTYPE html>`, or 0.
pub open spec fn document_start(s: Seq<u8>) -> int {
    if occurs(s, doctype_marker()) {
        choose|i: int| is_first_occurrence(s, doctype_marker(), i)
    } else {
        0
    }
}

/// Where the published document ends: just past the last `</html>`, or the
/// end of the input.
pub open spec fn document_end(s: Seq<u8>) -> int {
    if occurs(s, closing_marker()) {
        (choose|i: int| is_last_occurrence(s, closing_marker(), i)) + closing_marker().len()
    } else {
        s.len() as int
    }
}

/// The document that sanitizing `s` publishes, when its bounds are in order.
pub open spec fn sanitized(s: Seq<u8>) -> Seq<u8> {
    s.subrange(document_start(s), document_end(s))
}

/// The bounds of the document in the UTF-8 encoding of `text` are in order.
pub open spec fn has_document(text: Seq<char>) -> bool {
    document_start(encode_utf8(text)) <= document_end(encode_utf8(text))
}

/// The text of the document that sanitizing `text` publishes.
pub open spec fn sanitized_text(text: Seq<char>) -> Seq<char> {
    decode_utf8(sanitized(encode_utf8(text)))
}

/// In valid UTF-8, a char boundary followed by an ASCII byte is followed by
/// another boundary.
proof fn lemma_boundary_after_ascii(bytes: Seq<u8>, i: int)
    requires
        valid_utf8(bytes),
        is_char_boundary(bytes, i),
        0 <= i < bytes.len(),
        bytes[i] <= 0x7f,
    ensures
        is_char_boundary(bytes, i + 1),
    decreases bytes.len(),
{
    reveal_with_fuel(is_char_boundary, 2);
    let l = length_of_first_scalar(bytes);
    let rest = pop_first_scalar(bytes);
    assert(valid_utf8(rest));
    if i > 0 {
        assert(is_char_boundary(rest, i - l));
        assert(rest[i - l] == bytes[i]);
        lemma_boundary_after_ascii(rest, i - l);
    }
}

/// In valid UTF-8, a char boundary followed by `k` ASCII bytes is followed by
/// another boundary.
proof fn lemma_boundary_after_ascii_run(bytes: Seq<u8>, i: int, k: int)
    requires
        valid_utf8(bytes),
        is_char_boundary(bytes, i),
        0 <= i,
        0 <= k,
        i + k <= bytes.len(),
        forall|j: int| i <= j < i + k ==> bytes[j] <= 0x7f,
    ensures
        is_char_boundary(bytes, i + k),
    decreases k,
{
    if k > 0 {
        lemma_boundary_after_ascii_run(bytes, i, k - 1);
        lemma_boundary_after_ascii(bytes, i + k - 1);
    }
}

/// A boundary at or after a boundary `s` is a boundary of the bytes from `s` on.
proof fn lemma_boundary_in_suffix(bytes: Seq<u8>, s: int, e: int)
    requires
        valid_utf8(bytes),
        is_char_boundary(bytes, s),
        is_char_boundary(bytes, e),
        0 <= s <= e <= bytes.len(),
    ensures
        is_char_boundary(bytes.subrange(s, bytes.len() as int), e - s),
    decreases bytes.len(),
{
    if s == 0 {
        assert(bytes.subrange(s, bytes.len() as int) =~= bytes);
    } else {
        let l = length_of_first_scalar(bytes);
        let rest = pop_first_scalar(bytes);
        assert(valid_utf8(rest));
        assert(is_char_boundary(rest, s - l));
        assert(is_char_boundary(rest, e - l));
        lemma_boundary_in_suffix(rest, s - l, e - l);
        assert(rest.subrange(s - l, rest.len() as int) =~= bytes.subrange(s, bytes.len() as int));
    }
}

fn doctype_bytes() -> (r: Vec<u8>)
    ensures
        r@ == doctype_marker(),
{
    let r = vec![60u8, 33, 68, 79, 67, 84, 89, 80, 69, 32, 104, 116, 109, 108, 62];
    assert(r@ =~= doctype_marker());
    r
}

fn closing_bytes() -> (r: Vec<u8>)
    ensures
        r@ == closing_marker(),
{
    let r = vec![60u8, 47, 104, 116, 109, 108, 62];
    assert(r@ =~= closing_marker());
    r
}

/// Whether `m` appears in `s` at byte `i`.
fn matches_at(s: &[u8], m: &[u8], i: usize) -> (r: bool)
    requires
        i + m@.len() <= s@.len(),
    ensures
        r == occurs_at(s@, m@, i as int),
{
    let n: usize = s.len();
    let mut k: usize = 0;
    while k < m.len()
        invariant
            n == s@.len(),
            i + m@.len() <= s@.len(),
            k <= m@.len(),
            forall|t: int| 0 <= t < k ==> s@[i + t] == m@[t],
        decreases m@.len() - k,
    {
        if s[i + k] != m[k] {
            assert(s@.subrange(i as int, i + m@.len())[k as int] != m@[k as int]);
            return false;
        }
        k += 1;
    }
    assert(s@.subrange(i as int, i + m@.len()) =~= m@);
    true
}

/// The position of the first appearance of `m` in `s`.
pub fn find_first(s: &[u8], m: &[u8]) -> (r: Option<usize>)
    ensures
        match r {
            Some(i) => is_first_occurrence(s@, m@, i as int),
            None => !occurs(s@, m@),
        },
{
    if m.len() > s.len() {
        return None;
    }
    let last: usize = s.len() - m.len();
    let mut i: usize = 0;
    loop
        invariant
            m@.len() <= s@.len(),
            last == s@.len() - m@.len(),
            i <= last,
            forall|j: int| 0 <= j < i ==> !occurs_at(s@, m@, j),
        decreases last - i,
    {
        if matches_at(s, m, i) {
            return Some(i);
        }
        if i == last {
            return None;
        }
        i += 1;
    }
}

/// The position of the last appearance of `m` in `s`.
pub fn find_last(s: &[u8], m: &[u8]) -> (r: Option<usize>)
    ensures
        match r {
            Some(i) => is_last_occurrence(s@, m@, i as int),
            None => !occurs(s@, m@),
        },
{
    if m.len() > s.len() {
        return None;
    }
    let mut i: usize = s.len() - m.len();
    loop
        invariant
            m@.len() <= s@.len(),
            i <= s@.len() - m@.len(),
            forall|j: int| i < j ==> !occurs_at(s@, m@, j),
        decreases i,
    {
        if matches_at(s, m, i) {
            return Some(i);
        }
        if i == 0 {
            return None;
        }
        i -= 1;
    }
}

/// Cuts a generated page down to its HTML document: from the first
/// `<!DOCTYPE html>` (or the start) through the last `</html>` (or the end).
/// Returns `None` when the last `</html>` ends before the first
/// `<!DOCTYPE html>` begins, where no such document exists.
pub fn sanitize(content: &str) -> (r: Option<String>)
    ensures
        r is Some <==> has_document(content@),
        r matches Some(page) ==> encode_utf8(page@) == sanitized(encode_utf8(content@))
            && page@ == sanitized_text(content@),
{
    broadcast use encode_utf8_valid_utf8, encode_utf8_decode_utf8;

    let bytes = content.as_bytes();
    let ghost b = content.spec_bytes();
    let n: usize = bytes.len();
    let doctype = doctype_bytes();
    let closing = closing_bytes();
    let start: usize = match find_first(bytes, doctype.as_slice()) {
        Some(i) => {
            assert(is_first_occurrence(b, doctype_marker(), i as int));
            let ghost c = choose|c: int| is_first_occurrence(b, doctype_marker(), c);
            assert(c == i) by {
                if c < i {
                    assert(!occurs_at(b, doctype_marker(), c));
                } else if c > i {
                    assert(!occurs_at(b, doctype_marker(), i as int));
                }
            }
            proof {
                assert(b[i as int] == b.subrange(i as int, i + 15)[0]);
                is_char_boundary_iff_not_is_continuation_byte(b, i as int);
            }
            i
        },
        None => {
            proof {
                is_char_boundary_start_end_of_seq(b);
            }
            0
        },
    };
    let end: usize = match find_last(bytes, closing.as_slice()) {
        Some(i) => {
            assert(is_last_occurrence(b, closing_marker(), i as int));
            let ghost c = choose|c: int| is_last_occurrence(b, closing_marker(), c);
            assert(c == i) by {
                if c < i {
                    assert(!occurs_at(b, closing_marker(), i as int));
                } else if c > i {
                    assert(!occurs_at(b, closing_marker(), c));
                }
            }
            proof {
                assert forall|j: int| i <= j < i + 7 implies b[j] <= 0x7f by {
                    assert(b[j] == b.subrange(i as int, i + 7)[j - i]);
                }
                is_char_boundary_iff_not_is_continuation_byte(b, i as int);
                lemma_boundary_after_ascii_run(b, i as int, 7);
            }
            i + closing.len()
        },
        None => {
            proof {
                is_char_boundary_start_end_of_seq(b);
            }
            n
        },
    };
    assert(start == document_start(b));
    assert(end == document_end(b));
    if end < start {
        return None;
    }
    proof {
        lemma_boundary_in_suffix(b, start as int, end as int);
    }
    let (_, tail) = content.split_at(start);
    let (document, _) = tail.split_at(end - start);
    assert(document.spec_bytes() =~= sanitized(b));
    Some(document.to_owned())
}

} // verus!
