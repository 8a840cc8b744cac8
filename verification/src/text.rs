//! Byte-level text helpers for the player listing: lexicographic comparison
//! (the order `String` comparison gives, since UTF-8 preserves code-point
//! order) and ASCII-case-insensitive substring search for the name filter.

use vstd::prelude::*;

verus! {

/// `b` with an ASCII capital letter folded to its small form; other bytes
/// unchanged.
pub open spec fn lower_byte(b: u8) -> u8 {
    if 65 <= b <= 90 {
        (b + 32) as u8
    } else {
        b
    }
}

/// Three-way lexicographic comparison of byte strings: negative when `a`
/// orders first, positive when `b` does, zero exactly on equal strings.
pub open spec fn lex_cmp_bytes(a: Seq<u8>, b: Seq<u8>) -> int
    decreases a.len(),
{
    if a.len() == 0 && b.len() == 0 {
        0
    } else if a.len() == 0 {
        -1
    } else if b.len() == 0 {
        1
    } else if a[0] < b[0] {
        -1
    } else if a[0] > b[0] {
        1
    } else {
        lex_cmp_bytes(a.drop_first(), b.drop_first())
    }
}

/// The comparison takes no value outside -1, 0, 1.
pub proof fn lemma_lex_cmp_range(a: Seq<u8>, b: Seq<u8>)
    ensures
        -1 <= lex_cmp_bytes(a, b) <= 1,
    decreases a.len(),
{
    if a.len() != 0 && b.len() != 0 && a[0] == b[0] {
        lemma_lex_cmp_range(a.drop_first(), b.drop_first());
    }
}

/// Swapping the arguments negates the comparison.
pub proof fn lemma_lex_cmp_antisym(a: Seq<u8>, b: Seq<u8>)
    ensures
        lex_cmp_bytes(a, b) == -lex_cmp_bytes(b, a),
    decreases a.len(),
{
    if a.len() != 0 && b.len() != 0 && a[0] == b[0] {
        lemma_lex_cmp_antisym(a.drop_first(), b.drop_first());
    }
}

/// The order is transitive, strictly so as soon as one step is strict.
pub proof fn lemma_lex_cmp_trans(a: Seq<u8>, b: Seq<u8>, c: Seq<u8>)
    requires
        lex_cmp_bytes(a, b) <= 0,
        lex_cmp_bytes(b, c) <= 0,
    ensures
        lex_cmp_bytes(a, c) <= 0,
        lex_cmp_bytes(a, b) < 0 || lex_cmp_bytes(b, c) < 0 ==> lex_cmp_bytes(a, c) < 0,
    decreases a.len() + b.len() + c.len(),
{
    lemma_lex_cmp_range(a, b);
    lemma_lex_cmp_range(b, c);
    lemma_lex_cmp_range(a, c);
    if a.len() != 0 && b.len() != 0 && c.len() != 0 && a[0] == b[0] && b[0] == c[0] {
        lemma_lex_cmp_trans(a.drop_first(), b.drop_first(), c.drop_first());
    }
}

/// The comparison is zero exactly on equal byte strings.
pub proof fn lemma_lex_cmp_eq(a: Seq<u8>, b: Seq<u8>)
    ensures
        lex_cmp_bytes(a, b) == 0 <==> a == b,
    decreases a.len(),
{
    if a.len() == 0 && b.len() == 0 {
        assert(a =~= b);
    } else if a.len() != 0 && b.len() != 0 && a[0] == b[0] {
        lemma_lex_cmp_eq(a.drop_first(), b.drop_first());
        if lex_cmp_bytes(a, b) == 0 {
            assert(a =~= seq![a[0]] + a.drop_first());
            assert(b =~= seq![b[0]] + b.drop_first());
        }
        if a == b {
            assert(a.drop_first() =~= b.drop_first());
        }
    }
}

/// Equal prefixes of length `i` do not change the comparison of the rest.
proof fn lemma_lex_cmp_skip(a: Seq<u8>, b: Seq<u8>, i: int)
    requires
        0 <= i <= a.len(),
        i <= b.len(),
        forall|j: int| 0 <= j < i ==> a[j] == b[j],
    ensures
        lex_cmp_bytes(a, b) == lex_cmp_bytes(a.skip(i), b.skip(i)),
    decreases i,
{
    if i == 0 {
        assert(a.skip(0) =~= a);
        assert(b.skip(0) =~= b);
    } else {
        assert(a.len() != 0 && b.len() != 0 && a[0] == b[0]);
        assert(a.drop_first() =~= a.skip(1));
        assert(b.drop_first() =~= b.skip(1));
        lemma_lex_cmp_skip(a.skip(1), b.skip(1), i - 1);
        assert(a.skip(1).skip(i - 1) =~= a.skip(i));
        assert(b.skip(1).skip(i - 1) =~= b.skip(i));
    }
}

/// Three-way comparison of two byte slices; see [`lex_cmp_bytes`].
pub fn byte_lex_cmp(a: &[u8], b: &[u8]) -> (r: i8)
    ensures
        r as int == lex_cmp_bytes(a@, b@),
{
    let a_len: usize = a.len();
    let b_len: usize = b.len();
    let mut i: usize = 0;
    loop
        invariant
            i <= a_len,
            i <= b_len,
            a_len == a@.len(),
            b_len == b@.len(),
            forall|j: int| 0 <= j < i ==> a@[j] == b@[j],
        ensures
            ({
                let res: int = lex_cmp_bytes(a@, b@);
                res == if i < a_len && i < b_len {
                    if a@[i as int] < b@[i as int] {
                        -1
                    } else {
                        1int
                    }
                } else if i == a_len && i == b_len {
                    0
                } else if i == a_len {
                    -1
                } else {
                    1int
                }
            }),
        decreases a_len - i,
    {
        proof {
            lemma_lex_cmp_skip(a@, b@, i as int);
        }
        if i >= a_len || i >= b_len {
            break ;
        }
        if a[i] != b[i] {
            break ;
        }
        i = i + 1;
    }
    if i < a_len && i < b_len {
        if a[i] < b[i] {
            -1
        } else {
            1
        }
    } else if i == a_len && i == b_len {
        0
    } else if i == a_len {
        -1
    } else {
        1
    }
}

/// Whether two byte slices hold the same bytes.
pub fn bytes_eq(a: &[u8], b: &[u8]) -> (r: bool)
    ensures
        r == (a@ == b@),
{
    proof {
        lemma_lex_cmp_eq(a@, b@);
    }
    byte_lex_cmp(a, b) == 0
}

/// Bytes `a` and `b` are the same letter up to ASCII case.
pub open spec fn ci_eq_byte(a: u8, b: u8) -> bool {
    lower_byte(a) == lower_byte(b)
}

/// `needle` occurs in `hay` at offset `i`, comparing bytes up to ASCII case.
pub open spec fn ci_match_at(hay: Seq<u8>, needle: Seq<u8>, i: int) -> bool {
    &&& 0 <= i
    &&& i + needle.len() <= hay.len()
    &&& forall|j: int| 0 <= j < needle.len() ==> ci_eq_byte(hay[i + j], needle[j])
}

/// `needle` occurs somewhere in `hay`, comparing bytes up to ASCII case.
/// The empty needle occurs in every haystack.
pub open spec fn ci_contains(hay: Seq<u8>, needle: Seq<u8>) -> bool {
    exists|i: int| ci_match_at(hay, needle, i)
}

/// Fold one byte's ASCII case; see [`lower_byte`].
pub fn lower_byte_exec(b: u8) -> (r: u8)
    ensures
        r == lower_byte(b),
{
    if 65 <= b && b <= 90 {
        b + 32
    } else {
        b
    }
}

/// Whether `needle` occurs at offset `i` of `hay` up to ASCII case.
fn ci_match_at_exec(hay: &[u8], needle: &[u8], i: usize) -> (r: bool)
    requires
        i + needle@.len() <= hay@.len(),
    ensures
        r == ci_match_at(hay@, needle@, i as int),
{
    let h: usize = hay.len();
    let n: usize = needle.len();
    let mut j: usize = 0;
    while j < n
        invariant
            j <= n,
            n == needle@.len(),
            h == hay@.len(),
            i + n <= h,
            forall|k: int| 0 <= k < j ==> ci_eq_byte(hay@[i + k], needle@[k]),
        decreases n - j,
    {
        let hb = lower_byte_exec(hay[i + j]);
        let nb = lower_byte_exec(needle[j]);
        if hb != nb {
            assert(!ci_eq_byte(hay@[i + j], needle@[j as int]));
            return false;
        }
        j = j + 1;
    }
    true
}

/// Whether `needle` occurs anywhere in `hay` up to ASCII case; see
/// [`ci_contains`].
pub fn ci_contains_bytes(hay: &[u8], needle: &[u8]) -> (r: bool)
    ensures
        r == ci_contains(hay@, needle@),
{
    let h: usize = hay.len();
    let n: usize = needle.len();
    if n > h {
        assert(forall|i: int| !ci_match_at(hay@, needle@, i));
        return false;
    }
    let mut i: usize = 0;
    while i <= h - n
        invariant
            0 <= i <= h - n + 1,
            n <= h,
            h == hay@.len(),
            n == needle@.len(),
            forall|k: int| 0 <= k < i ==> !ci_match_at(hay@, needle@, k),
        decreases h + 1 - i,
    {
        if ci_match_at_exec(hay, needle, i) {
            assert(ci_match_at(hay@, needle@, i as int));
            return true;
        }
        i = i + 1;
    }
    assert(forall|k: int| k > h - n ==> !ci_match_at(hay@, needle@, k));
    false
}

} // verus!
