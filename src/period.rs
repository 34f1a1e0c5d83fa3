use vstd::prelude::*;
use vstd::string::StrSliceExecFns;
use vstd::utf8::encode_utf8;

verus! {

/// `s` has two dots starting at position `k`.
pub open spec fn dots_at(s: Seq<char>, k: int) -> bool {
    0 <= k && k + 1 < s.len() && s[k] == '.' && s[k + 1] == '.'
}

/// Split on `..` from the left, `s` falls into exactly two parts, the separator standing at `i`.
pub open spec fn splits_once_at(s: Seq<char>, i: int) -> bool {
    &&& dots_at(s, i)
    &&& forall|k: int| 0 <= k < i ==> !#[trigger] dots_at(s, k)
    &&& forall|k: int| i + 2 <= k ==> !#[trigger] dots_at(s, k)
}

/// Seven bytes of UTF-8 with a dash as the fifth byte, as in `2024-03`.
pub open spec fn ym_shaped(p: Seq<char>) -> bool {
    encode_utf8(p).len() == 7 && encode_utf8(p)[4] == 45u8
}

/// The part has the shape of a month: seven bytes, the fifth a dash.
fn part_shaped(p: &str) -> (r: bool)
    ensures
        r == ym_shaped(p@),
{
    let b = p.as_bytes();
    b.len() == 7 && b[4] == 45u8
}

/// The range argument `s` is well formed, with its separator at `i`.
pub open spec fn range_arg_at(s: Seq<char>, i: int) -> bool {
    splits_once_at(s, i) && ym_shaped(s.subrange(0, i)) && ym_shaped(s.subrange(i + 2, s.len() as int))
}

/// The first place at or after `from` where two dots stand, if any.
fn find_dots(s: &str, n: usize, from: usize) -> (r: Option<usize>)
    requires
        n == s@.len(),
    ensures
        match r {
            Some(k) => from <= k && dots_at(s@, k as int) && forall|m: int|
                from <= m < k ==> !#[trigger] dots_at(s@, m),
            None => forall|m: int| from <= m ==> !#[trigger] dots_at(s@, m),
        },
{
    let mut k: usize = from;
    while k < n && k + 1 < n
        invariant
            n == s@.len(),
            from <= k,
            forall|m: int| from <= m < k ==> !#[trigger] dots_at(s@, m),
        decreases n - k,
    {
        if s.get_char(k) == '.' && s.get_char(k + 1) == '.' {
            return Some(k);
        }
        k = k + 1;
    }
    None
}

/// Reads `START..END`, where both months are seven bytes with a dash as the fifth byte.
pub fn parse_ym_range(s: &str) -> (r: Option<(String, String)>)
    ensures
        r is Some <==> exists|i: int| range_arg_at(s@, i),
        r is Some ==> exists|i: int|
            range_arg_at(s@, i) && r->Some_0.0@ == s@.subrange(0, i) && r->Some_0.1@ == s@.subrange(
                i + 2,
                s@.len() as int,
            ),
{
    let n = s.unicode_len();
    let i = match find_dots(s, n, 0) {
        Some(i) => i,
        None => {
            proof {
                assert forall|i: int| !range_arg_at(s@, i) by {
                    if dots_at(s@, i) {
                        assert(!dots_at(s@, i));
                    }
                }
            }
            return None;
        },
    };
    let rest = find_dots(s, n, i + 2);
    if rest.is_some() {
        proof {
            let k = rest->Some_0;
            assert forall|j: int| !range_arg_at(s@, j) by {
                if range_arg_at(s@, j) {
                    if j < i {
                        assert(!dots_at(s@, j));
                    } else if j > i {
                        assert(!dots_at(s@, i as int));
                    } else {
                        assert(!dots_at(s@, k as int));
                    }
                }
            }
        }
        return None;
    }
    let a = s.substring_char(0, i);
    let b = s.substring_char(i + 2, n);
    let ok = part_shaped(a) && part_shaped(b);
    proof {
        assert(splits_once_at(s@, i as int));
        assert forall|j: int| splits_once_at(s@, j) implies j == i by {
            if j < i {
                assert(!dots_at(s@, j));
            } else if j > i {
                assert(!dots_at(s@, i as int));
            }
        }
    }
    if ok {
        assert(range_arg_at(s@, i as int));
        Some((a.to_owned(), b.to_owned()))
    } else {
        assert(!range_arg_at(s@, i as int));
        None
    }
}

} // verus!
