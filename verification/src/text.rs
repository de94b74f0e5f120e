use vstd::prelude::*;

verus! {

/// `pattern` occurs in `text` as a contiguous run.
pub open spec fn has_infix(text: Seq<u8>, pattern: Seq<u8>) -> bool {
    exists|i: int| 0 <= i <= text.len() - pattern.len() && #[trigger] text.subrange(i, i + pattern.len()) == pattern
}

/// Whether `pattern` occurs in `text` at position `at`.
fn matches_at(text: &[u8], pattern: &[u8], at: usize) -> (r: bool)
    requires
        at + pattern@.len() <= text@.len(),
    ensures
        r == (text@.subrange(at as int, at + pattern@.len()) == pattern@),
{
    let mut k: usize = 0;
    while k < pattern.len()
        invariant
            k <= pattern@.len(),
            at + pattern@.len() <= text@.len(),
            text@.len() == text.len(),
            pattern@.len() == pattern.len(),
            forall|j: int| 0 <= j < k ==> text@[at + j] == pattern@[j],
        decreases pattern@.len() - k,
    {
        if text[at + k] != pattern[k] {
            assert(text@.subrange(at as int, at + pattern@.len())[k as int] != pattern@[k as int]);
            return false;
        }
        k = k + 1;
    }
    assert(text@.subrange(at as int, at + pattern@.len()) =~= pattern@);
    true
}

/// Byte-level substring search.
pub fn bytes_contain(text: &[u8], pattern: &[u8]) -> (r: bool)
    ensures
        r == has_infix(text@, pattern@),
{
    if pattern.len() > text.len() {
        return false;
    }
    let last = text.len() - pattern.len();
    let mut i: usize = 0;
    loop
        invariant
            last == text@.len() - pattern@.len(),
            i <= last,
            forall|j: int| 0 <= j < i ==> #[trigger] text@.subrange(j, j + pattern@.len()) != pattern@,
        decreases last - i,
    {
        if matches_at(text, pattern, i) {
            return true;
        }
        if i == last {
            return false;
        }
        i = i + 1;
    }
}

/// `pattern` occurs in `text`, compared on their UTF-8 encodings
/// (as `str::contains` compares them).
pub open spec fn text_contains(text: Seq<char>, pattern: Seq<char>) -> bool {
    has_infix(vstd::utf8::encode_utf8(text), vstd::utf8::encode_utf8(pattern))
}

/// Whether `pattern` occurs in `text`.
pub fn contains(text: &str, pattern: &str) -> (r: bool)
    ensures
        r == text_contains(text@, pattern@),
{
    bytes_contain(text.as_bytes(), pattern.as_bytes())
}

} // verus!
