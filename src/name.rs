//! Validation of file names.
use vstd::prelude::*;
use vstd::utf8::encode_utf8;
use crate::error::Error;

verus! {

/// File names whose UTF-8 encoding is this long or longer are rejected.
pub const MAXIMUM_FILE_NAME_LENGTH: usize = 256;

/// The characters of the Unicode `White_Space` property.
pub open spec fn is_white_space(c: char) -> bool {
    let n = c as u32;
    (0x09 <= n <= 0x0d) || n == 0x20 || n == 0x85 || n == 0xa0 || n == 0x1680 || (0x2000 <= n
        <= 0x200a) || n == 0x2028 || n == 0x2029 || n == 0x202f || n == 0x205f || n == 0x3000
}

/// The characters of the Unicode general category `Cc`.
pub open spec fn is_control(c: char) -> bool {
    let n = c as u32;
    n <= 0x1f || (0x7f <= n <= 0x9f)
}

/// Characters that may not appear in a file name.
pub open spec fn is_forbidden(c: char) -> bool {
    is_control(c) || c == '/' || c == '\\'
}

/// `s` without its leading white space.
pub open spec fn trim_start(s: Seq<char>) -> Seq<char>
    decreases s.len(),
{
    if s.len() > 0 && is_white_space(s[0]) {
        trim_start(s.drop_first())
    } else {
        s
    }
}

/// `s` without its trailing white space.
pub open spec fn trim_end(s: Seq<char>) -> Seq<char>
    decreases s.len(),
{
    if s.len() > 0 && is_white_space(s.last()) {
        trim_end(s.drop_last())
    } else {
        s
    }
}

/// `s` without leading or trailing white space.
pub open spec fn trim(s: Seq<char>) -> Seq<char> {
    trim_end(trim_start(s))
}

/// The length in bytes of the UTF-8 encoding of `n`, as `str::len` reports it.
pub open spec fn utf8_len(n: Seq<char>) -> usize {
    encode_utf8(n).len() as usize
}

/// Whether an already trimmed name is acceptable as a file name.
pub open spec fn name_ok(n: Seq<char>) -> bool {
    &&& n.len() > 0
    &&& utf8_len(n) < MAXIMUM_FILE_NAME_LENGTH
    &&& forall|i: int| 0 <= i < n.len() ==> !is_forbidden(#[trigger] n[i])
}

proof fn lemma_trim_start_at(s: Seq<char>, i: int)
    requires
        0 <= i <= s.len(),
        forall|j: int| 0 <= j < i ==> is_white_space(#[trigger] s[j]),
        i == s.len() || !is_white_space(s[i]),
    ensures
        trim_start(s) == s.subrange(i, s.len() as int),
    decreases i,
{
    if i == 0 {
        if s.len() > 0 {
            assert(!is_white_space(s[0]));
        }
        assert(s.subrange(0, s.len() as int) =~= s);
    } else {
        let t = s.drop_first();
        assert forall|j: int| 0 <= j < i - 1 implies is_white_space(#[trigger] t[j]) by {
            assert(t[j] == s[j + 1]);
        }
        assert(is_white_space(s[0]));
        lemma_trim_start_at(t, i - 1);
        assert(t.subrange(i - 1, t.len() as int) =~= s.subrange(i, s.len() as int));
    }
}

proof fn lemma_trim_end_at(s: Seq<char>, k: int)
    requires
        0 <= k <= s.len(),
        forall|j: int| k <= j < s.len() ==> is_white_space(#[trigger] s[j]),
        k == 0 || !is_white_space(s[k - 1]),
    ensures
        trim_end(s) == s.subrange(0, k),
    decreases s.len() - k,
{
    if k == s.len() {
        if s.len() > 0 {
            assert(!is_white_space(s.last()));
        }
        assert(s.subrange(0, k) =~= s);
    } else {
        let t = s.drop_last();
        assert(is_white_space(s.last()));
        assert forall|j: int| k <= j < t.len() implies is_white_space(#[trigger] t[j]) by {
            assert(t[j] == s[j]);
        }
        if k > 0 {
            assert(t[k - 1] == s[k - 1]);
        }
        lemma_trim_end_at(t, k);
        assert(t.subrange(0, k) =~= s.subrange(0, k));
    }
}

fn char_is_white_space(c: char) -> (r: bool)
    ensures
        r == is_white_space(c),
{
    let n = c as u32;
    (0x09 <= n && n <= 0x0d) || n == 0x20 || n == 0x85 || n == 0xa0 || n == 0x1680 || (0x2000
        <= n && n <= 0x200a) || n == 0x2028 || n == 0x2029 || n == 0x202f || n == 0x205f || n
        == 0x3000
}

fn char_is_forbidden(c: char) -> (r: bool)
    ensures
        r == is_forbidden(c),
{
    let n = c as u32;
    n <= 0x1f || (0x7f <= n && n <= 0x9f) || c == '/' || c == '\\'
}

/// Removes leading and trailing white space from `s`.
pub fn trim_name(s: &str) -> (r: String)
    ensures
        r@ == trim(s@),
{
    let len = s.unicode_len();
    let mut i: usize = 0;
    while i < len && char_is_white_space(s.get_char(i))
        invariant
            len == s@.len(),
            i <= len,
            forall|j: int| 0 <= j < i ==> is_white_space(#[trigger] s@[j]),
        decreases len - i,
    {
        i = i + 1;
    }
    proof {
        lemma_trim_start_at(s@, i as int);
    }
    let ghost t = s@.subrange(i as int, len as int);
    let mut k: usize = len;
    while k > i && char_is_white_space(s.get_char(k - 1))
        invariant
            len == s@.len(),
            i <= k <= len,
            t == s@.subrange(i as int, len as int),
            forall|j: int| k <= j < len ==> is_white_space(#[trigger] s@[j]),
        decreases k - i,
    {
        k = k - 1;
    }
    proof {
        let kk = (k - i) as int;
        assert forall|j: int| kk <= j < t.len() implies is_white_space(#[trigger] t[j]) by {
            assert(t[j] == s@[j + i]);
        }
        if kk > 0 {
            assert(t[kk - 1] == s@[k - 1]);
        }
        lemma_trim_end_at(t, kk);
        assert(t.subrange(0, kk) =~= s@.subrange(i as int, k as int));
    }
    s.substring_char(i, k).to_owned()
}

/// Whether an already trimmed name is acceptable as a file name.
fn validate_trimmed(n: &str) -> (r: bool)
    ensures
        r == name_ok(n@),
{
    if n.is_empty() {
        return false;
    }
    if n.len() >= MAXIMUM_FILE_NAME_LENGTH {
        return false;
    }
    let len = n.unicode_len();
    let mut i: usize = 0;
    while i < len
        invariant
            len == n@.len(),
            i <= len,
            forall|j: int| 0 <= j < i ==> !is_forbidden(#[trigger] n@[j]),
        decreases len - i,
    {
        if char_is_forbidden(n.get_char(i)) {
            return false;
        }
        i = i + 1;
    }
    true
}

/// Validates a file name, trimming surrounding white space in place.
///
/// The trimmed name must be non-empty, encode to fewer than
/// `MAXIMUM_FILE_NAME_LENGTH` bytes, and hold no control characters and no
/// slashes or backslashes.
pub fn check_file_name(name: &mut String) -> (r: Result<(), Error>)
    ensures
        final(name)@ == trim(old(name)@),
        r is Ok <==> name_ok(trim(old(name)@)),
        r is Err ==> r == Err::<(), Error>(Error::InvalidName),
{
    let trimmed = trim_name(name.as_str());
    let ok = validate_trimmed(trimmed.as_str());
    *name = trimmed;
    if ok {
        Ok(())
    } else {
        Err(Error::InvalidName)
    }
}

} // verus!
