//! Lexicographic order on character sequences, and path-prefix containment.
//!
//! Store keys are canonical absolute paths ordered lexicographically by
//! character (code point), the order a `BTreeMap<String, _>` would keep.

use vstd::prelude::*;
use vstd::string::StrSliceExecFns;

verus! {

/// Strict lexicographic order on character sequences, by code point.
pub open spec fn str_lt(a: Seq<char>, b: Seq<char>) -> bool
    decreases a.len(),
{
    if b.len() == 0 {
        false
    } else if a.len() == 0 {
        true
    } else if a[0] == b[0] {
        str_lt(a.drop_first(), b.drop_first())
    } else {
        (a[0] as u32) < (b[0] as u32)
    }
}

/// After an equal prefix of length `i`, the order is decided at position `i`.
pub proof fn lemma_str_lt_at_diff(a: Seq<char>, b: Seq<char>, i: int)
    requires
        0 <= i < a.len(),
        i < b.len(),
        forall|j: int| 0 <= j < i ==> a[j] == b[j],
        a[i] != b[i],
    ensures
        str_lt(a, b) == ((a[i] as u32) < (b[i] as u32)),
    decreases i,
{
    if i > 0 {
        lemma_str_lt_at_diff(a.drop_first(), b.drop_first(), i - 1);
    }
}

/// When one sequence is a prefix of the other, the shorter comes first.
pub proof fn lemma_str_lt_prefix(a: Seq<char>, b: Seq<char>, n: int)
    requires
        0 <= n <= a.len(),
        n <= b.len(),
        forall|j: int| 0 <= j < n ==> a[j] == b[j],
        n == a.len() || n == b.len(),
    ensures
        str_lt(a, b) == (a.len() < b.len()),
    decreases n,
{
    if n > 0 {
        lemma_str_lt_prefix(a.drop_first(), b.drop_first(), n - 1);
    }
}

pub proof fn lemma_str_lt_irreflexive(a: Seq<char>)
    ensures
        !str_lt(a, a),
    decreases a.len(),
{
    if a.len() > 0 {
        lemma_str_lt_irreflexive(a.drop_first());
    }
}

pub proof fn lemma_str_lt_asymmetric(a: Seq<char>, b: Seq<char>)
    requires
        str_lt(a, b),
    ensures
        !str_lt(b, a),
        a != b,
    decreases a.len(),
{
    if a.len() > 0 && b.len() > 0 && a[0] == b[0] {
        lemma_str_lt_asymmetric(a.drop_first(), b.drop_first());
        assert(a != b) by {
            assert(a.drop_first() != b.drop_first());
            if a == b {
                assert(a.drop_first() =~= b.drop_first());
            }
        }
    } else {
        if a == b {
            lemma_str_lt_irreflexive(a);
        }
    }
}

pub proof fn lemma_str_lt_transitive(a: Seq<char>, b: Seq<char>, c: Seq<char>)
    requires
        str_lt(a, b),
        str_lt(b, c),
    ensures
        str_lt(a, c),
    decreases a.len() + b.len() + c.len(),
{
    if b.len() == 0 || c.len() == 0 || a.len() == 0 {
    } else if a[0] == b[0] && b[0] == c[0] {
        lemma_str_lt_transitive(a.drop_first(), b.drop_first(), c.drop_first());
    }
}

/// Two sequences are equal, or one is strictly below the other.
pub proof fn lemma_str_lt_total(a: Seq<char>, b: Seq<char>)
    ensures
        a == b || str_lt(a, b) || str_lt(b, a),
    decreases a.len(),
{
    broadcast use vstd::utf8::char_u32_cast;

    if a.len() == 0 && b.len() == 0 {
        assert(a =~= b);
    } else if a.len() == 0 || b.len() == 0 {
    } else if a[0] == b[0] {
        lemma_str_lt_total(a.drop_first(), b.drop_first());
        if a.drop_first() == b.drop_first() {
            assert(a =~= seq![a[0]] + a.drop_first());
            assert(b =~= seq![b[0]] + b.drop_first());
        }
    } else {
        let x: u32 = a[0] as u32;
        let y: u32 = b[0] as u32;
        vstd::utf8::char_u32_cast(a[0], x);
        vstd::utf8::char_u32_cast(b[0], y);
        assert(x != y);
    }
}

/// Outcome of a three-way string comparison.
#[derive(PartialEq, Eq, Structural)]
pub enum CharOrder {
    Below,
    Same,
    Above,
}

/// Three-way lexicographic comparison of two strings.
pub fn str_compare(a: &str, b: &str) -> (r: CharOrder)
    ensures
        (r == CharOrder::Same) == (a@ == b@),
        (r == CharOrder::Below) == str_lt(a@, b@),
        (r == CharOrder::Above) == str_lt(b@, a@),
{
    let a_len = a.unicode_len();
    let b_len = b.unicode_len();
    let n = if a_len < b_len { a_len } else { b_len };
    let mut i: usize = 0;
    while i < n
        invariant
            0 <= i <= n,
            n == if a_len < b_len { a_len } else { b_len },
            a_len == a@.len(),
            b_len == b@.len(),
            forall|j: int| 0 <= j < i ==> a@[j] == b@[j],
        decreases n - i,
    {
        let ca = a.get_char(i);
        let cb = b.get_char(i);
        if ca != cb {
            proof {
                lemma_str_lt_at_diff(a@, b@, i as int);
                lemma_str_lt_at_diff(b@, a@, i as int);
                assert(a@ != b@);
            }
            if (ca as u32) < (cb as u32) {
                return CharOrder::Below;
            } else {
                return CharOrder::Above;
            }
        }
        i += 1;
    }
    proof {
        lemma_str_lt_prefix(a@, b@, n as int);
        lemma_str_lt_prefix(b@, a@, n as int);
        if a_len == b_len {
            assert(a@ =~= b@);
        }
    }
    if a_len == b_len {
        CharOrder::Same
    } else if a_len < b_len {
        CharOrder::Below
    } else {
        CharOrder::Above
    }
}

/// The length of a base path without its trailing separator, if it carries
/// one: the root `/` in particular contains everything underneath it.
pub open spec fn spec_stem_len(base: Seq<char>) -> int {
    if base.len() > 0 && base[base.len() - 1] == '/' {
        base.len() - 1
    } else {
        base.len() as int
    }
}

/// Path-prefix containment: `path` is `base` itself, or lies underneath it
/// with a path separator right after the base (a trailing separator on the
/// base, as on the root, is tolerated). Segment containment, not substring
/// matching.
pub open spec fn spec_path_within(base: Seq<char>, path: Seq<char>) -> bool {
    path == base || (path.len() > spec_stem_len(base) && path.subrange(0, spec_stem_len(base))
        == base.subrange(0, spec_stem_len(base)) && path[spec_stem_len(base)] == '/')
}

pub fn path_within(base: &str, path: &str) -> (r: bool)
    ensures
        r == spec_path_within(base@, path@),
{
    if str_compare(base, path) == CharOrder::Same {
        return true;
    }
    let base_len = base.unicode_len();
    let path_len = path.unicode_len();
    let stem_len = if base_len > 0 && base.get_char(base_len - 1) == '/' {
        base_len - 1
    } else {
        base_len
    };
    if path_len <= stem_len {
        return false;
    }
    let mut i: usize = 0;
    while i < stem_len
        invariant
            0 <= i <= stem_len,
            base_len == base@.len(),
            path_len == path@.len(),
            stem_len == spec_stem_len(base@),
            stem_len < path_len,
            stem_len <= base_len,
            path@ != base@,
            forall|j: int| 0 <= j < i ==> path@[j] == base@[j],
        decreases stem_len - i,
    {
        if path.get_char(i) != base.get_char(i) {
            proof {
                if path@.subrange(0, stem_len as int) == base@.subrange(0, stem_len as int) {
                    assert(path@.subrange(0, stem_len as int)[i as int] == path@[i as int]);
                    assert(base@.subrange(0, stem_len as int)[i as int] == base@[i as int]);
                }
            }
            return false;
        }
        i += 1;
    }
    let c = path.get_char(stem_len);
    proof {
        assert(path@.subrange(0, stem_len as int) =~= base@.subrange(0, stem_len as int));
    }
    c == '/'
}

} // verus!
