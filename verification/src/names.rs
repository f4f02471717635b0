//! Mount-target names as they arrive on the wire.
//!
//! A mount request carries a raw name such as `\Mount\Disc A.iso\0`. Before
//! it is looked up, every occurrence of `\Mount` is cut out, then every
//! backslash, then every NUL byte. What is left is either the reserved name
//! that asks for the current image to be disabled, or the tail of the file
//! name of the image to mount.
//!
//! Names are handled as bytes. A raw name must be valid UTF-8;
//! [`is_utf8`] checks that.
use vstd::prelude::*;

verus! {

/// The tag that clients put in front of a name: ASCII `\Mount`.
pub const MOUNT_TAG: [u8; 6] = [0x5c, 0x4d, 0x6f, 0x75, 0x6e, 0x74];

/// The reserved name that unmounts: ASCII `[Disable Current ISO]`.
pub const DISABLE_NAME: [u8; 21] = [
    0x5b, 0x44, 0x69, 0x73, 0x61, 0x62, 0x6c, 0x65, 0x20, 0x43, 0x75,
    0x72, 0x72, 0x65, 0x6e, 0x74, 0x20, 0x49, 0x53, 0x4f, 0x5d,
];

/// The backslash.
pub const BACKSLASH: u8 = 0x5c;

/// Whether `s` holds `pat` at position `at`.
pub open spec fn occurs_at(s: Seq<u8>, at: int, pat: Seq<u8>) -> bool {
    0 <= at && at + pat.len() <= s.len() && s.subrange(at, at + pat.len()) == pat
}

/// `s` without the occurrences of `pat`, found from left to right; the
/// search goes on behind each occurrence, so occurrences do not overlap,
/// and what the cuts leave behind is not searched again. An empty pattern
/// cuts nothing.
pub open spec fn strip_all(s: Seq<u8>, pat: Seq<u8>) -> Seq<u8>
    decreases s.len(),
{
    if pat.len() == 0 || s.len() < pat.len() {
        s
    } else if occurs_at(s, 0, pat) {
        strip_all(s.subrange(pat.len() as int, s.len() as int), pat)
    } else {
        seq![s[0]] + strip_all(s.subrange(1, s.len() as int), pat)
    }
}

/// `s` without the bytes equal to `b`, the others in their order.
pub open spec fn without_byte(s: Seq<u8>, b: u8) -> Seq<u8>
    decreases s.len(),
{
    if s.len() == 0 {
        s
    } else if s.last() == b {
        without_byte(s.drop_last(), b)
    } else {
        without_byte(s.drop_last(), b).push(s.last())
    }
}

/// The name that a raw mount target stands for: the raw bytes without the
/// occurrences of `\Mount`, then without backslashes, then without NULs.
pub open spec fn normalize_spec(raw: Seq<u8>) -> Seq<u8> {
    without_byte(without_byte(strip_all(raw, MOUNT_TAG@), BACKSLASH), 0)
}

/// Whether `name` ends with `suffix`. Every name ends with the empty
/// suffix.
pub open spec fn ends_with_spec(name: Seq<u8>, suffix: Seq<u8>) -> bool {
    suffix.len() <= name.len() && name.subrange(name.len() - suffix.len(), name.len() as int)
        == suffix
}

/// Whether `bytes` are valid UTF-8.
///
/// Trusted: this is `std::str::from_utf8`, asked only whether it succeeds.
/// The contract takes `vstd`'s `valid_utf8` as the definition of the
/// encoding that the standard library checks.
#[verifier::external_body]
pub(crate) fn is_utf8(bytes: &[u8]) -> (valid: bool)
    ensures
        valid == vstd::utf8::valid_utf8(bytes@),
{
    std::str::from_utf8(bytes).is_ok()
}

fn matches_at(s: &[u8], at: usize, pat: &[u8]) -> (hit: bool)
    requires
        at + pat@.len() <= s@.len(),
    ensures
        hit == occurs_at(s@, at as int, pat@),
{
    let n = pat.len();
    let len = s.len();
    let mut i: usize = 0;
    while i < n
        invariant
            i <= n,
            n == pat@.len(),
            len == s@.len(),
            at + n <= len,
            forall|j: int| 0 <= j < i ==> s@[at + j] == pat@[j],
        decreases n - i,
    {
        if s[at + i] != pat[i] {
            assert(s@.subrange(at as int, at + n)[i as int] != pat@[i as int]);
            return false;
        }
        i += 1;
    }
    assert(s@.subrange(at as int, at + n) =~= pat@);
    true
}

fn strip(s: &[u8], pat: &[u8]) -> (out: Vec<u8>)
    ensures
        out@ == strip_all(s@, pat@),
{
    let n = s.len();
    let m = pat.len();
    let mut out: Vec<u8> = Vec::new();
    let mut i: usize = 0;
    assert(s@.subrange(0, n as int) =~= s@);
    while i < n
        invariant
            i <= n,
            n == s@.len(),
            m == pat@.len(),
            strip_all(s@, pat@) == out@ + strip_all(s@.subrange(i as int, n as int), pat@),
        decreases n - i,
    {
        let ghost rest = s@.subrange(i as int, n as int);
        if m > 0 && m <= n - i && matches_at(s, i, pat) {
            assert(rest.subrange(0, m as int) =~= s@.subrange(i as int, i + m));
            assert(rest.subrange(m as int, rest.len() as int) =~= s@.subrange(i + m, n as int));
            i += m;
        } else {
            proof {
                if m > 0 && m <= n - i {
                    assert(rest.subrange(0, m as int) =~= s@.subrange(i as int, i + m));
                    assert(rest.subrange(1, rest.len() as int) =~= s@.subrange(i + 1, n as int));
                    assert(out@.push(s@[i as int]) + strip_all(s@.subrange(i + 1, n as int), pat@)
                        =~= out@ + (seq![rest[0]] + strip_all(
                        rest.subrange(1, rest.len() as int),
                        pat@,
                    )));
                } else {
                    lemma_strip_short(rest, pat@);
                    lemma_strip_short(s@.subrange(i + 1, n as int), pat@);
                    assert(out@.push(s@[i as int]) + s@.subrange(i + 1, n as int) =~= out@ + rest);
                }
            }
            out.push(s[i]);
            i += 1;
        }
    }
    assert(s@.subrange(n as int, n as int) =~= Seq::<u8>::empty());
    assert(out@ + Seq::<u8>::empty() =~= out@);
    out
}

/// A pattern that is empty, or longer than the text, occurs nowhere in it.
proof fn lemma_strip_short(s: Seq<u8>, pat: Seq<u8>)
    requires
        pat.len() == 0 || s.len() < pat.len(),
    ensures
        strip_all(s, pat) == s,
{
}

fn drop_byte(s: &[u8], b: u8) -> (out: Vec<u8>)
    ensures
        out@ == without_byte(s@, b),
{
    let n = s.len();
    let mut out: Vec<u8> = Vec::new();
    let mut i: usize = 0;
    while i < n
        invariant
            i <= n,
            n == s@.len(),
            out@ == without_byte(s@.take(i as int), b),
        decreases n - i,
    {
        assert(s@.take(i + 1).drop_last() =~= s@.take(i as int));
        if s[i] != b {
            out.push(s[i]);
        }
        i += 1;
    }
    assert(s@.take(n as int) =~= s@);
    out
}

/// The name that a raw mount target stands for.
pub fn normalize_name(raw: &[u8]) -> (name: Vec<u8>)
    ensures
        name@ == normalize_spec(raw@),
{
    let untagged = strip(raw, MOUNT_TAG.as_slice());
    let unslashed = drop_byte(untagged.as_slice(), BACKSLASH);
    drop_byte(unslashed.as_slice(), 0)
}

/// Whether `name` is the reserved name that unmounts.
pub fn is_disable_name(name: &[u8]) -> (yes: bool)
    ensures
        yes == (name@ == DISABLE_NAME@),
{
    if name.len() != 21 {
        return false;
    }
    assert(name@.subrange(0, 21) =~= name@);
    matches_at(name, 0, DISABLE_NAME.as_slice())
}

/// Whether `name` ends with `suffix`.
pub fn ends_with(name: &[u8], suffix: &[u8]) -> (yes: bool)
    ensures
        yes == ends_with_spec(name@, suffix@),
{
    if suffix.len() > name.len() {
        return false;
    }
    matches_at(name, name.len() - suffix.len(), suffix)
}

/// No byte equal to `b` is left once `b` is taken out.
pub proof fn lemma_without_byte_clean(s: Seq<u8>, b: u8)
    ensures
        forall|i: int| 0 <= i < without_byte(s, b).len() ==> without_byte(s, b)[i] != b,
        without_byte(s, b).len() <= s.len(),
    decreases s.len(),
{
    if s.len() > 0 {
        lemma_without_byte_clean(s.drop_last(), b);
    }
}

/// A normalized name holds neither a backslash nor a NUL byte.
pub proof fn lemma_normalized_is_clean(raw: Seq<u8>)
    ensures
        forall|i: int|
            0 <= i < normalize_spec(raw).len() ==> normalize_spec(raw)[i] != BACKSLASH
                && normalize_spec(raw)[i] != 0,
{
    let untagged = strip_all(raw, MOUNT_TAG@);
    let unslashed = without_byte(untagged, BACKSLASH);
    lemma_without_byte_clean(untagged, BACKSLASH);
    lemma_without_byte_clean(unslashed, 0);
    lemma_without_byte_keeps(unslashed, 0);
}

/// Every byte that is left once `b` is taken out was there before.
proof fn lemma_without_byte_keeps(s: Seq<u8>, b: u8)
    ensures
        forall|i: int|
            0 <= i < without_byte(s, b).len() ==> s.contains(#[trigger] without_byte(s, b)[i]),
    decreases s.len(),
{
    if s.len() > 0 {
        let head = s.drop_last();
        lemma_without_byte_keeps(head, b);
        assert forall|i: int| 0 <= i < without_byte(s, b).len() implies s.contains(
            #[trigger] without_byte(s, b)[i],
        ) by {
            if i < without_byte(head, b).len() {
                let x = without_byte(head, b)[i];
                assert(head.contains(x));
                let j = choose|j: int| 0 <= j < head.len() && head[j] == x;
                assert(s[j] == x);
            } else {
                assert(s[s.len() - 1] == without_byte(s, b)[i]);
            }
        }
    }
}

} // verus!
