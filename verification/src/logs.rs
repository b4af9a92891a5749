use vstd::prelude::*;

verus! {

/// Index of the first line break at or after `i`, or the text's end.
pub open spec fn next_nl(s: Seq<char>, i: int) -> int
    decreases s.len() - i when 0 <= i <= s.len()
{
    if i < s.len() {
        if s[i] == '\n' {
            i
        } else {
            next_nl(s, i + 1)
        }
    } else {
        i
    }
}

pub proof fn lemma_next_nl_bounds(s: Seq<char>, i: int)
    requires
        0 <= i <= s.len(),
    ensures
        i <= next_nl(s, i) <= s.len(),
    decreases s.len() - i,
{
    if i < s.len() && s[i] != '\n' {
        lemma_next_nl_bounds(s, i + 1);
    }
}

/// One line's text: a carriage return left by a Windows line ending
/// is not part of it.
pub open spec fn strip_cr(l: Seq<char>) -> Seq<char> {
    if l.len() > 0 && l[l.len() - 1] == '\r' {
        l.drop_last()
    } else {
        l
    }
}

/// The lines of the text from position `i` on; a trailing line break
/// opens no empty final line.
pub open spec fn lines_from(s: Seq<char>, i: int) -> Seq<Seq<char>>
    decreases s.len() - i when 0 <= i <= s.len() via lines_from_dec
{
    if i >= s.len() {
        Seq::empty()
    } else {
        let j = next_nl(s, i);
        if j >= s.len() {
            seq![strip_cr(s.subrange(i, s.len() as int))]
        } else {
            seq![strip_cr(s.subrange(i, j))] + lines_from(s, j + 1)
        }
    }
}

#[via_fn]
proof fn lines_from_dec(s: Seq<char>, i: int) {
    if i < s.len() {
        lemma_next_nl_bounds(s, i);
    }
}

/// Lines joined back with single line breaks.
pub open spec fn join_lines(ls: Seq<Seq<char>>) -> Seq<char>
    decreases ls.len(),
{
    if ls.len() == 0 {
        Seq::empty()
    } else if ls.len() == 1 {
        ls[0]
    } else {
        ls[0] + seq!['\n'] + join_lines(ls.drop_first())
    }
}

/// The last `n` lines (at least one) of the text, in original order,
/// joined with line breaks.
pub open spec fn last_lines(s: Seq<char>, n: int) -> Seq<char> {
    let ls = lines_from(s, 0);
    let k = if n < 1 {
        1int
    } else {
        n
    };
    join_lines(
        ls.skip(
            if ls.len() <= k {
                0
            } else {
                ls.len() - k
            },
        ),
    )
}

/// One line appended to a join extends it with a break and the line.
proof fn lemma_join_snoc(ls: Seq<Seq<char>>, l: Seq<char>)
    ensures
        join_lines(ls.push(l)) == if ls.len() == 0 {
            l
        } else {
            join_lines(ls) + seq!['\n'] + l
        },
    decreases ls.len(),
{
    if ls.len() == 0 {
        assert(ls.push(l)[0] == l);
        assert(join_lines(ls.push(l)) == l);
    } else {
        assert(ls.push(l).drop_first() =~= ls.drop_first().push(l));
        lemma_join_snoc(ls.drop_first(), l);
        if ls.len() == 1 {
            assert(join_lines(ls.push(l)) == ls[0] + seq!['\n'] + l);
            assert(join_lines(ls) == ls[0]);
        } else {
            assert(join_lines(ls.push(l)) == ls[0] + seq!['\n'] + (join_lines(ls.drop_first())
                + seq!['\n'] + l));
            assert(ls[0] + seq!['\n'] + (join_lines(ls.drop_first()) + seq!['\n'] + l) =~= (ls[0]
                + seq!['\n'] + join_lines(ls.drop_first())) + seq!['\n'] + l);
        }
    }
}

fn next_nl_exec(s: &str, i: usize) -> (r: usize)
    requires
        i <= s@.len(),
    ensures
        r == next_nl(s@, i as int),
        i <= r <= s@.len(),
{
    let len = s.unicode_len();
    let mut m = i;
    while m < len && s.get_char(m) != '\n'
        invariant
            i <= m <= len,
            len == s@.len(),
            next_nl(s@, i as int) == next_nl(s@, m as int),
        decreases len - m,
    {
        m = m + 1;
    }
    m
}

fn split_lines(s: &str, i: usize) -> (r: Vec<String>)
    requires
        i <= s@.len(),
    ensures
        r.deep_view() == lines_from(s@, i as int),
    decreases s@.len() - i,
{
    let len = s.unicode_len();
    if i >= len {
        let r: Vec<String> = Vec::new();
        proof {
            assert(r.deep_view() =~= Seq::<Seq<char>>::empty());
        }
        return r;
    }
    let j = next_nl_exec(s, i);
    let mut end = j;
    if end > i && s.get_char(end - 1) == '\r' {
        end = end - 1;
    }
    let line = s.substring_char(i, end).to_owned();
    proof {
        assert(line@ =~= strip_cr(s@.subrange(i as int, j as int)));
    }
    if j >= len {
        let mut r: Vec<String> = Vec::new();
        r.push(line);
        proof {
            assert(r.deep_view() =~= seq![line@]);
        }
        r
    } else {
        let rest = split_lines(s, j + 1);
        let ghost rest0 = rest.deep_view();
        let mut r = rest;
        r.insert(0, line);
        proof {
            assert(r.deep_view() =~= seq![line@] + rest0);
        }
        r
    }
}

/// The last `n` lines of a log text (minimum one), in original order.
pub fn tail_lines(text: &str, n: usize) -> (r: String)
    ensures
        r@ == last_lines(text@, n as int),
{
    let lines = split_lines(text, 0);
    let total = lines.len();
    let k = if n < 1 {
        1
    } else {
        n
    };
    let start = if total <= k {
        0
    } else {
        total - k
    };
    let mut out = String::new();
    let mut idx = start;
    let ghost wanted = lines.deep_view().skip(start as int);
    proof {
        assert(wanted.take(0) =~= Seq::<Seq<char>>::empty());
        assert(out@ =~= join_lines(wanted.take(0)));
    }
    while idx < total
        invariant
            start <= idx <= total,
            total == lines.len(),
            wanted == lines.deep_view().skip(start as int),
            out@ == join_lines(wanted.take(idx - start)),
        decreases total - idx,
    {
        let ghost done = wanted.take(idx - start);
        if idx > start {
            out.append("\n");
            proof {
                reveal_strlit("\n");
            }
        }
        out.append(lines[idx].as_str());
        proof {
            let l = lines.deep_view()[idx as int];
            assert(lines@[idx as int]@ == l);
            assert(wanted[idx - start] == l);
            assert(wanted.take(idx - start + 1) =~= done.push(l));
            lemma_join_snoc(done, l);
            if idx > start {
                assert(out@ =~= join_lines(done) + seq!['\n'] + l);
            } else {
                assert(done.len() == 0);
                assert(out@ =~= l);
            }
        }
        idx = idx + 1;
    }
    proof {
        assert(wanted.take(total - start) =~= wanted);
    }
    out
}

} // verus!
