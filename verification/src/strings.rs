//! Character-level string edits: removing characters and trimming.

use vstd::prelude::*;

verus! {

/// `s` with every character in `banned` removed.
pub open spec fn spec_remove(s: Seq<char>, banned: Seq<char>) -> Seq<char>
    decreases s.len(),
{
    if s.len() == 0 {
        Seq::empty()
    } else {
        (if banned.contains(s[0]) {
            Seq::<char>::empty()
        } else {
            seq![s[0]]
        }) + spec_remove(s.drop_first(), banned)
    }
}

pub proof fn lemma_remove_push(p: Seq<char>, c: char, banned: Seq<char>)
    ensures
        spec_remove(p.push(c), banned) == spec_remove(p, banned) + (if banned.contains(c) {
            Seq::<char>::empty()
        } else {
            seq![c]
        }),
    decreases p.len(),
{
    let tail = if banned.contains(c) {
        Seq::<char>::empty()
    } else {
        seq![c]
    };
    if p.len() == 0 {
        assert(p.push(c).drop_first() =~= Seq::<char>::empty());
        assert(p.push(c)[0] == c);
        assert(spec_remove(p.push(c).drop_first(), banned) == Seq::<char>::empty());
        assert(spec_remove(p.push(c), banned) == tail + Seq::<char>::empty());
        assert(tail + Seq::<char>::empty() =~= tail);
        assert(spec_remove(p, banned) + tail =~= tail);
    } else {
        lemma_remove_push(p.drop_first(), c, banned);
        assert(p.push(c).drop_first() =~= p.drop_first().push(c));
        assert(p.push(c)[0] == p[0]);
        let head = if banned.contains(p[0]) {
            Seq::<char>::empty()
        } else {
            seq![p[0]]
        };
        assert(spec_remove(p.push(c), banned) == head + (spec_remove(p.drop_first(), banned)
            + tail));
        assert(head + (spec_remove(p.drop_first(), banned) + tail) =~= (head + spec_remove(
            p.drop_first(),
            banned,
        )) + tail);
    }
}

/// Removes every occurrence of the banned characters.
pub fn remove_chars(s: &str, banned: &Vec<char>) -> (r: String)
    ensures
        r@ == spec_remove(s@, banned@),
{
    let n = s.unicode_len();
    let mut r = String::new();
    let mut i: usize = 0;
    proof {
        assert(s@.take(0) =~= Seq::<char>::empty());
    }
    while i < n
        invariant
            n == s@.len(),
            0 <= i <= n,
            r@ == spec_remove(s@.take(i as int), banned@),
        decreases n - i,
    {
        let c = s.get_char(i);
        let mut hit = false;
        let mut k: usize = 0;
        while k < banned.len()
            invariant
                0 <= k <= banned@.len(),
                hit == exists|j: int| 0 <= j < k && banned@[j] == c,
            decreases banned@.len() - k,
        {
            if banned[k] == c {
                hit = true;
            }
            k += 1;
        }
        proof {
            assert(hit == banned@.contains(c));
            lemma_remove_push(s@.take(i as int), c, banned@);
            assert(s@.take(i as int).push(s@[i as int]) =~= s@.take(i + 1));
        }
        if !hit {
            let piece = s.substring_char(i, i + 1);
            r.append(piece);
            proof {
                assert(piece@ =~= seq![s@[i as int]]);
            }
        }
        i += 1;
    }
    proof {
        assert(s@.take(n as int) =~= s@);
    }
    r
}

/// The whitespace characters trimming removes.
pub open spec fn is_space(c: char) -> bool {
    c == ' ' || c == '\t' || c == '\n' || c == '\r'
}

/// `s` without leading whitespace.
pub open spec fn trim_left(s: Seq<char>) -> Seq<char>
    decreases s.len(),
{
    if s.len() > 0 && is_space(s[0]) {
        trim_left(s.drop_first())
    } else {
        s
    }
}

/// `s` without trailing whitespace.
pub open spec fn trim_right(s: Seq<char>) -> Seq<char>
    decreases s.len(),
{
    if s.len() > 0 && is_space(s.last()) {
        trim_right(s.drop_last())
    } else {
        s
    }
}

/// `s` without leading and trailing whitespace.
pub open spec fn spec_trim(s: Seq<char>) -> Seq<char> {
    trim_right(trim_left(s))
}

fn is_space_char(c: char) -> (r: bool)
    ensures
        r == is_space(c),
{
    c == ' ' || c == '\t' || c == '\n' || c == '\r'
}

/// Removes leading and trailing whitespace.
pub fn trim(s: &str) -> (r: String)
    ensures
        r@ == spec_trim(s@),
{
    let n = s.unicode_len();
    let mut a: usize = 0;
    proof {
        assert(s@.skip(0) =~= s@);
    }
    while a < n && is_space_char(s.get_char(a))
        invariant
            n == s@.len(),
            0 <= a <= n,
            trim_left(s@) == trim_left(s@.skip(a as int)),
        decreases n - a,
    {
        proof {
            assert(s@.skip(a as int).drop_first() =~= s@.skip(a + 1));
        }
        a += 1;
    }
    proof {
        if a < n {
            assert(!is_space(s@.skip(a as int)[0]));
        } else {
            assert(s@.skip(a as int) =~= Seq::<char>::empty());
        }
        assert(trim_left(s@) == s@.skip(a as int));
    }
    let mut b: usize = n;
    proof {
        assert(s@.subrange(a as int, b as int) =~= s@.skip(a as int));
    }
    while b > a && is_space_char(s.get_char(b - 1))
        invariant
            n == s@.len(),
            0 <= a <= b <= n,
            trim_right(s@.skip(a as int)) == trim_right(s@.subrange(a as int, b as int)),
        decreases b,
    {
        proof {
            let cur = s@.subrange(a as int, b as int);
            assert(cur.last() == s@[b - 1]);
            assert(cur.drop_last() =~= s@.subrange(a as int, b - 1));
        }
        b -= 1;
    }
    proof {
        let cur = s@.subrange(a as int, b as int);
        if b > a {
            assert(cur.last() == s@[b - 1]);
            assert(!is_space(cur.last()));
        } else {
            assert(cur =~= Seq::<char>::empty());
        }
        assert(trim_right(cur) == cur);
        assert(spec_trim(s@) == s@.subrange(a as int, b as int));
    }
    let piece = s.substring_char(a, b);
    piece.to_owned()
}

} // verus!
