use vstd::prelude::*;
use vstd::string::StrSliceExecFns;

verus! {

/// Code-point order of two characters; for UTF-8 text it is the order of the encoded bytes.
pub open spec fn char_less(a: char, b: char) -> bool {
    (a as int) < (b as int)
}

/// Lexicographic order of two texts, character by character, a proper prefix first.
pub open spec fn text_less(a: Seq<char>, b: Seq<char>) -> bool
    decreases a.len(),
{
    if a.len() == 0 {
        b.len() > 0
    } else if b.len() == 0 {
        false
    } else if a[0] == b[0] {
        text_less(a.drop_first(), b.drop_first())
    } else {
        char_less(a[0], b[0])
    }
}

/// `a` comes no later than `b` in lexicographic order.
pub open spec fn text_le(a: Seq<char>, b: Seq<char>) -> bool {
    !text_less(b, a)
}

/// The `YYYY-MM` part of a timestamp: its first seven characters (all of it when shorter).
pub open spec fn month_key(stamp: Seq<char>) -> Seq<char> {
    if stamp.len() <= 7 {
        stamp
    } else {
        stamp.subrange(0, 7)
    }
}

pub proof fn lemma_text_less_irreflexive(a: Seq<char>)
    ensures
        !text_less(a, a),
    decreases a.len(),
{
    if a.len() > 0 {
        lemma_text_less_irreflexive(a.drop_first());
    }
}

pub proof fn lemma_text_less_total(a: Seq<char>, b: Seq<char>)
    ensures
        a != b ==> (text_less(a, b) || text_less(b, a)),
        !(text_less(a, b) && text_less(b, a)),
    decreases a.len(),
{
    if a.len() > 0 && b.len() > 0 {
        lemma_text_less_total(a.drop_first(), b.drop_first());
        if a[0] == b[0] && a != b {
            assert(a =~= seq![a[0]] + a.drop_first());
            assert(b =~= seq![b[0]] + b.drop_first());
        }
        if a[0] != b[0] {
            assert((a[0] as int) != (b[0] as int));
        }
    } else if a.len() == 0 && b.len() == 0 {
        assert(a =~= b);
    }
}

pub proof fn lemma_text_less_transitive(a: Seq<char>, b: Seq<char>, c: Seq<char>)
    requires
        text_less(a, b),
        text_less(b, c),
    ensures
        text_less(a, c),
    decreases a.len(),
{
    if a.len() > 0 && b.len() > 0 && c.len() > 0 {
        if a[0] == b[0] && b[0] == c[0] {
            lemma_text_less_transitive(a.drop_first(), b.drop_first(), c.drop_first());
        }
    }
}

/// The two texts are equal exactly when neither comes before the other.
pub proof fn lemma_text_le_antisymmetric(k: Seq<char>, m: Seq<char>)
    ensures
        (text_le(m, k) && text_le(k, m)) <==> k == m,
{
    lemma_text_less_total(k, m);
    lemma_text_less_irreflexive(k);
}

/// Compares two texts in lexicographic order.
pub fn str_less(a: &str, b: &str) -> (r: bool)
    ensures
        r == text_less(a@, b@),
{
    let la = a.unicode_len();
    let lb = b.unicode_len();
    let mut i: usize = 0;
    assert(a@.subrange(0, la as int) =~= a@);
    assert(b@.subrange(0, lb as int) =~= b@);
    while i < la && i < lb
        invariant
            la == a@.len(),
            lb == b@.len(),
            i <= la,
            i <= lb,
            text_less(a@, b@) == text_less(a@.subrange(i as int, la as int), b@.subrange(i as int, lb as int)),
        decreases la - i,
    {
        let ca = a.get_char(i);
        let cb = b.get_char(i);
        let ghost sa = a@.subrange(i as int, la as int);
        let ghost sb = b@.subrange(i as int, lb as int);
        assert(sa[0] == ca && sb[0] == cb);
        if ca != cb {
            return (ca as u32) < (cb as u32);
        }
        assert(sa.drop_first() =~= a@.subrange(i + 1, la as int));
        assert(sb.drop_first() =~= b@.subrange(i + 1, lb as int));
        i = i + 1;
    }
    i == la && i < lb
}

/// Tests two texts for equality.
pub fn str_eq(a: &str, b: &str) -> (r: bool)
    ensures
        r == (a@ == b@),
{
    let la = a.unicode_len();
    let lb = b.unicode_len();
    if la != lb {
        return false;
    }
    let mut i: usize = 0;
    while i < la
        invariant
            la == a@.len(),
            lb == b@.len(),
            la == lb,
            i <= la,
            a@.subrange(0, i as int) =~= b@.subrange(0, i as int),
        decreases la - i,
    {
        if a.get_char(i) != b.get_char(i) {
            return false;
        }
        assert(a@.subrange(0, i + 1) =~= a@.subrange(0, i as int).push(a@[i as int]));
        assert(b@.subrange(0, i + 1) =~= b@.subrange(0, i as int).push(b@[i as int]));
        i = i + 1;
    }
    assert(a@ =~= a@.subrange(0, la as int));
    assert(b@ =~= b@.subrange(0, lb as int));
    true
}

/// The `YYYY-MM` part of a timestamp.
pub fn month_of(stamp: &str) -> (r: &str)
    ensures
        r@ == month_key(stamp@),
{
    let n = stamp.unicode_len();
    if n <= 7 {
        let r = stamp.substring_char(0, n);
        assert(r@ =~= stamp@);
        r
    } else {
        stamp.substring_char(0, 7)
    }
}

/// The character at `i` of a `YYYY-MM-DD HH:MM:SS` timestamp: a separator or a digit.
pub open spec fn stamp_char_ok(s: Seq<char>, i: int) -> bool {
    if i == 4 || i == 7 {
        s[i] == '-'
    } else if i == 10 {
        s[i] == ' '
    } else if i == 13 || i == 16 {
        s[i] == ':'
    } else {
        48 <= (s[i] as int) <= 57
    }
}

/// `s` has the form `YYYY-MM-DD HH:MM:SS`, with every field zero-padded.
pub open spec fn stamp_shaped(s: Seq<char>) -> bool {
    s.len() == 19 && forall|i: int| 0 <= i < 19 ==> #[trigger] stamp_char_ok(s, i)
}

/// Tests that a timestamp has the form `YYYY-MM-DD HH:MM:SS`.
pub fn is_stamp(s: &str) -> (r: bool)
    ensures
        r == stamp_shaped(s@),
{
    if s.unicode_len() != 19 {
        return false;
    }
    let mut i: usize = 0;
    while i < 19
        invariant
            s@.len() == 19,
            i <= 19,
            forall|k: int| 0 <= k < i ==> #[trigger] stamp_char_ok(s@, k),
        decreases 19 - i,
    {
        let c = s.get_char(i);
        let ok = if i == 4 || i == 7 {
            c == '-'
        } else if i == 10 {
            c == ' '
        } else if i == 13 || i == 16 {
            c == ':'
        } else {
            48 <= (c as u32) && (c as u32) <= 57
        };
        if !ok {
            assert(!stamp_char_ok(s@, i as int));
            return false;
        }
        i = i + 1;
    }
    true
}

} // verus!
