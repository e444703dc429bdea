//! Operations on text and on path-like text used across the library.
use vstd::prelude::*;

verus! {

/// The separator of path components, `/`.
pub open spec fn separator() -> u8 {
    47u8
}

/// The path that results from joining `seg` onto `base`, both taken as the raw
/// bytes of Unix paths, as a Unix path buffer does it: an absolute segment
/// replaces the base; otherwise a separator is inserted unless the base is empty
/// or already ends in one.
pub open spec fn joined_path(base: Seq<u8>, seg: Seq<u8>) -> Seq<u8> {
    if seg.len() > 0 && seg[0] == separator() {
        seg
    } else if base.len() == 0 || base.last() == separator() {
        base + seg
    } else {
        base + seq![separator()] + seg
    }
}

/// The UTF-8 bytes of the text `s`.
pub open spec fn text_bytes(s: Seq<char>) -> Seq<u8> {
    vstd::utf8::encode_utf8(s)
}

/// Appends the bytes `s` to `v`.
pub fn push_bytes(v: &mut Vec<u8>, s: &[u8])
    ensures
        final(v)@ == old(v)@ + s@,
{
    let n = s.len();
    let mut i: usize = 0;
    while i < n
        invariant
            n == s@.len(),
            i <= n,
            v@ == old(v)@ + s@.take(i as int),
        decreases n - i,
    {
        v.push(s[i]);
        assert(s@.take(i + 1) =~= s@.take(i as int).push(s@[i as int]));
        i = i + 1;
    }
    assert(s@.take(n as int) =~= s@);
}

/// Joins the path segment `seg` onto the path `base`.
pub fn join_path(base: &[u8], seg: &[u8]) -> (r: Vec<u8>)
    ensures
        r@ == joined_path(base@, seg@),
{
    if seg.len() > 0 && seg[0] == 47u8 {
        return vstd::slice::slice_to_vec(seg);
    }
    let mut r = vstd::slice::slice_to_vec(base);
    if base.len() > 0 && base[base.len() - 1] != 47u8 {
        r.push(47u8);
    }
    push_bytes(&mut r, seg);
    r
}

/// `s` with every trailing `/` removed.
pub open spec fn without_trailing_slashes(s: Seq<char>) -> Seq<char>
    decreases s.len(),
{
    if s.len() > 0 && s.last() == '/' {
        without_trailing_slashes(s.drop_last())
    } else {
        s
    }
}

/// Removes every trailing `/` from `s`.
pub fn trim_trailing_slashes(s: &str) -> (r: String)
    ensures
        r@ == without_trailing_slashes(s@),
{
    let mut i = s.unicode_len();
    assert(s@.subrange(0, i as int) =~= s@);
    while i > 0 && s.get_char(i - 1) == '/'
        invariant
            i <= s@.len(),
            without_trailing_slashes(s@.subrange(0, i as int)) == without_trailing_slashes(s@),
        decreases i,
    {
        assert(s@.subrange(0, i as int).drop_last() =~= s@.subrange(0, i - 1));
        i = i - 1;
    }
    String::from_str(s.substring_char(0, i))
}

/// Whether `a` comes strictly before `b` when compared character by
/// character by code point, a proper prefix coming first.
pub open spec fn text_lt(a: Seq<char>, b: Seq<char>) -> bool {
    exists|k: int| #[trigger] first_difference(a, b, k)
}

/// `k` is where `a` and `b` first differ, and there `a` is the smaller one.
pub open spec fn first_difference(a: Seq<char>, b: Seq<char>, k: int) -> bool {
    &&& 0 <= k <= a.len()
    &&& k <= b.len()
    &&& forall|i: int| 0 <= i < k ==> a[i] == b[i]
    &&& {
        ||| k == a.len() && k < b.len()
        ||| k < a.len() && k < b.len() && (a[k] as u32) < (b[k] as u32)
    }
}

/// No text comes before itself.
pub proof fn lemma_text_lt_irreflexive(a: Seq<char>)
    ensures
        !text_lt(a, a),
{
    if text_lt(a, a) {
        let k = choose|k: int| #[trigger] first_difference(a, a, k);
        assert(first_difference(a, a, k));
    }
}

/// The order on texts is transitive.
pub proof fn lemma_text_lt_transitive(a: Seq<char>, b: Seq<char>, c: Seq<char>)
    requires
        text_lt(a, b),
        text_lt(b, c),
    ensures
        text_lt(a, c),
{
    let k1 = choose|k: int| #[trigger] first_difference(a, b, k);
    let k2 = choose|k: int| #[trigger] first_difference(b, c, k);
    if k1 < k2 {
        assert(first_difference(a, c, k1));
    } else if k2 < k1 {
        assert(first_difference(a, c, k2));
    } else {
        assert(first_difference(a, c, k1));
    }
}

/// The order on texts is asymmetric.
pub proof fn lemma_text_lt_asymmetric(a: Seq<char>, b: Seq<char>)
    requires
        text_lt(a, b),
    ensures
        !text_lt(b, a),
{
    if text_lt(b, a) {
        lemma_text_lt_transitive(a, b, a);
        lemma_text_lt_irreflexive(a);
    }
}

/// The outcome of comparing two texts.
#[derive(Clone, Copy, Debug, PartialEq, Eq)]
pub enum TextOrder {
    Before,
    Same,
    After,
}

/// Compares `a` with `b` character by character.
pub fn compare_text(a: &str, b: &str) -> (r: TextOrder)
    ensures
        r == TextOrder::Before <==> text_lt(a@, b@),
        r == TextOrder::Same <==> a@ == b@,
        r == TextOrder::After <==> text_lt(b@, a@),
{
    let a_len = a.unicode_len();
    let b_len = b.unicode_len();
    let mut i: usize = 0;
    while i < a_len && i < b_len
        invariant
            a_len == a@.len(),
            b_len == b@.len(),
            i <= a_len,
            i <= b_len,
            forall|j: int| 0 <= j < i ==> a@[j] == b@[j],
        decreases a_len - i,
    {
        let ca = a.get_char(i);
        let cb = b.get_char(i);
        if (ca as u32) < (cb as u32) {
            assert(first_difference(a@, b@, i as int));
            proof {
                lemma_text_lt_asymmetric(a@, b@);
            }
            return TextOrder::Before;
        }
        if (cb as u32) < (ca as u32) {
            assert(first_difference(b@, a@, i as int));
            proof {
                lemma_text_lt_asymmetric(b@, a@);
            }
            return TextOrder::After;
        }
        assert((ca as u32) == (cb as u32));
        i = i + 1;
    }
    if a_len < b_len {
        assert(first_difference(a@, b@, i as int));
        proof {
            lemma_text_lt_asymmetric(a@, b@);
        }
        TextOrder::Before
    } else if b_len < a_len {
        assert(first_difference(b@, a@, i as int));
        proof {
            lemma_text_lt_asymmetric(b@, a@);
        }
        TextOrder::After
    } else {
        assert(a@ =~= b@);
        proof {
            lemma_text_lt_irreflexive(a@);
        }
        TextOrder::Same
    }
}

/// Whether `a` and `b` hold the same characters.
pub fn same_text(a: &str, b: &str) -> (r: bool)
    ensures
        r == (a@ == b@),
{
    match compare_text(a, b) {
        TextOrder::Same => true,
        _ => false,
    }
}

} // verus!
