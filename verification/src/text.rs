use vstd::prelude::*;
use vstd::string::StrSliceExecFns;

verus! {

/// A line with a trailing carriage return is read as if the carriage return
/// were absent, so that input with CRLF line endings parses like LF input.
pub open spec fn strip_cr(l: Seq<char>) -> Seq<char> {
    if l.len() > 0 && l.last() == '\r' {
        l.drop_last()
    } else {
        l
    }
}

/// Splitting a character sequence on a separator: one segment more than there
/// are separators, in order, with the separators themselves dropped.
pub open spec fn split_on(s: Seq<char>, sep: char) -> Seq<Seq<char>>
    decreases s.len(),
{
    if s.len() == 0 {
        seq![Seq::<char>::empty()]
    } else {
        let r = split_on(s.drop_last(), sep);
        if s.last() == sep {
            r.push(Seq::<char>::empty())
        } else {
            r.update(r.len() - 1, r.last().push(s.last()))
        }
    }
}

pub proof fn lemma_split_on_nonempty(s: Seq<char>, sep: char)
    ensures
        split_on(s, sep).len() >= 1,
    decreases s.len(),
{
    if s.len() > 0 {
        lemma_split_on_nonempty(s.drop_last(), sep);
    }
}

/// Collects the characters of a string slice into a vector, preserving order.
pub fn chars_of(s: &str) -> (r: Vec<char>)
    ensures
        r@ == s@,
{
    let n = s.unicode_len();
    let mut r: Vec<char> = Vec::new();
    let mut i: usize = 0;
    while i < n
        invariant
            i <= n,
            n == s@.len(),
            r@ =~= s@.subrange(0, i as int),
        decreases n - i,
    {
        let c = s.get_char(i);
        r.push(c);
        proof {
            assert(r@ =~= s@.subrange(0, i + 1 as int));
        }
        i += 1;
    }
    proof {
        assert(s@.subrange(0, n as int) =~= s@);
    }
    r
}

/// Splits the characters of `s` between `from` and `to` on `sep`.
pub fn split_range(s: &Vec<char>, from: usize, to: usize, sep: char) -> (r: Vec<Vec<char>>)
    requires
        from <= to <= s@.len(),
    ensures
        r.deep_view() == split_on(s@.subrange(from as int, to as int), sep),
{
    let mut done: Vec<Vec<char>> = Vec::new();
    let mut cur: Vec<char> = Vec::new();
    let mut i: usize = from;
    proof {
        assert(s@.subrange(from as int, from as int) =~= Seq::<char>::empty());
        assert(done.deep_view().push(cur@) =~~= split_on(s@.subrange(from as int, from as int), sep));
    }
    while i < to
        invariant
            from <= i <= to <= s@.len(),
            done.deep_view().push(cur@) == split_on(s@.subrange(from as int, i as int), sep),
        decreases to - i,
    {
        let ghost pre = s@.subrange(from as int, i as int);
        let ghost post = s@.subrange(from as int, i + 1 as int);
        proof {
            assert(post.drop_last() =~= pre);
            assert(post.last() == s@[i as int]);
        }
        let c = s[i];
        if c == sep {
            let ghost old_done = done.deep_view();
            let ghost old_cur = cur@;
            done.push(cur);
            cur = Vec::new();
            proof {
                assert(done.deep_view() =~~= old_done.push(old_cur));
                assert(done.deep_view().push(cur@) =~~= split_on(post, sep));
            }
        } else {
            let ghost old_done = done.deep_view();
            let ghost old_cur = cur@;
            cur.push(c);
            proof {
                let r = split_on(pre, sep);
                assert(r.update(r.len() - 1, r.last().push(c)) =~~= old_done.push(old_cur.push(c)));
                assert(done.deep_view().push(cur@) =~~= split_on(post, sep));
            }
        }
        i += 1;
    }
    let ghost old_done = done.deep_view();
    let ghost old_cur = cur@;
    done.push(cur);
    proof {
        assert(done.deep_view() =~~= old_done.push(old_cur));
    }
    done
}

} // verus!
