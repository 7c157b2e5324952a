use vstd::prelude::*;

verus! {

/// `needle` occurs in `hay` as a contiguous run of characters.
pub open spec fn has_substring(hay: Seq<char>, needle: Seq<char>) -> bool {
    exists|i: int|
        0 <= i && i + needle.len() <= hay.len() && #[trigger] hay.subrange(i, i + needle.len())
            == needle
}

/// Characters with the Unicode `White_Space` property.
pub open spec fn is_white_space(c: char) -> bool {
    let u = c as u32;
    (0x9 <= u && u <= 0xd) || u == 0x20 || u == 0x85 || u == 0xa0 || u == 0x1680 || (0x2000 <= u
        && u <= 0x200a) || u == 0x2028 || u == 0x2029 || u == 0x202f || u == 0x205f || u == 0x3000
}

/// `s` without its leading white space.
pub open spec fn trim_start(s: Seq<char>) -> Seq<char>
    decreases s.len(),
{
    if s.len() > 0 && is_white_space(s[0]) {
        trim_start(s.drop_first())
    } else {
        s
    }
}

/// `s` without its trailing white space.
pub open spec fn trim_end(s: Seq<char>) -> Seq<char>
    decreases s.len(),
{
    if s.len() > 0 && is_white_space(s.last()) {
        trim_end(s.drop_last())
    } else {
        s
    }
}

/// `s` without leading and trailing white space.
pub open spec fn trimmed(s: Seq<char>) -> Seq<char> {
    trim_end(trim_start(s))
}

/// The pieces of `s` between line feeds, in order; `s` with `n` line feeds
/// has `n + 1` pieces, some of them possibly empty.
pub open spec fn split_lf(s: Seq<char>) -> Seq<Seq<char>>
    decreases s.len(),
{
    if s.len() == 0 {
        seq![Seq::empty()]
    } else {
        let p = split_lf(s.drop_last());
        if s.last() == '\n' {
            p.push(Seq::empty())
        } else {
            p.update(p.len() - 1, p.last().push(s.last()))
        }
    }
}

/// A piece that ended at a line feed, without a carriage return just before it.
pub open spec fn strip_cr(seg: Seq<char>) -> Seq<char> {
    if seg.len() > 0 && seg.last() == '\r' {
        seg.drop_last()
    } else {
        seg
    }
}

/// The lines of `s`: the pieces between line feeds, where a line that ends
/// at a line feed loses a carriage return before it, and the empty piece
/// after a final line feed (or of an empty text) is no line.
pub open spec fn lines_of(s: Seq<char>) -> Seq<Seq<char>> {
    let segs = split_lf(s);
    let n = if segs.last().len() == 0 {
        segs.len() - 1
    } else {
        segs.len() as int
    };
    Seq::new(
        n as nat,
        |k: int|
            if k + 1 < segs.len() {
                strip_cr(segs[k])
            } else {
                segs[k]
            },
    )
}

proof fn lemma_split_lf_nonempty(s: Seq<char>)
    ensures
        split_lf(s).len() >= 1,
    decreases s.len(),
{
    if s.len() > 0 {
        lemma_split_lf_nonempty(s.drop_last());
    }
}

/// The characters of `s`, one per element.
pub fn chars_of(s: &str) -> (r: Vec<char>)
    ensures
        r@ == s@,
{
    let mut r: Vec<char> = Vec::new();
    for c in it: s.chars()
        invariant
            it.seq() == s@,
            r@ == it.seq().take(it.index() as int),
    {
        r.push(c);
    }
    r
}

pub fn is_white_space_char(c: char) -> (r: bool)
    ensures
        r == is_white_space(c),
{
    let u = c as u32;
    (0x9 <= u && u <= 0xd) || u == 0x20 || u == 0x85 || u == 0xa0 || u == 0x1680 || (0x2000 <= u
        && u <= 0x200a) || u == 0x2028 || u == 0x2029 || u == 0x202f || u == 0x205f || u == 0x3000
}

/// Whether `needle` occurs in `hay[lo..hi]`.
pub fn occurs_in(hay: &Vec<char>, lo: usize, hi: usize, needle: &Vec<char>) -> (r: bool)
    requires
        lo <= hi <= hay.len(),
    ensures
        r == has_substring(hay@.subrange(lo as int, hi as int), needle@),
{
    let ghost h = hay@.subrange(lo as int, hi as int);
    let n = needle.len();
    if n > hi - lo {
        return false;
    }
    let mut i: usize = lo;
    while i <= hi - n
        invariant
            lo <= i,
            n == needle.len(),
            n <= hi - lo,
            lo <= hi <= hay.len(),
            h == hay@.subrange(lo as int, hi as int),
            forall|j: int|
                0 <= j < i - lo ==> #[trigger] h.subrange(j, j + n) != needle@,
        decreases hi - i,
    {
        let mut t: usize = 0;
        while t < n && hay[i + t] == needle[t]
            invariant
                t <= n,
                i + n <= hi <= hay.len(),
                n == needle.len(),
                forall|u: int| 0 <= u < t ==> hay@[i + u] == needle@[u],
            decreases n - t,
        {
            t += 1;
        }
        if t == n {
            assert(h.subrange(i - lo, i - lo + n) =~= needle@);
            return true;
        }
        assert(h.subrange(i - lo, i - lo + n)[t as int] != needle@[t as int]);
        i += 1;
    }
    assert forall|j: int|
        0 <= j && j + needle@.len() <= h.len() implies #[trigger] h.subrange(j, j + needle@.len())
        != needle@ by {
        assert(j < i - lo);
    }
    false
}

/// The bounds of `hay[lo..hi]` without its leading and trailing white space.
pub fn trim_bounds(hay: &Vec<char>, lo: usize, hi: usize) -> (r: (usize, usize))
    requires
        lo <= hi <= hay.len(),
    ensures
        lo <= r.0 <= r.1 <= hi,
        hay@.subrange(r.0 as int, r.1 as int) == trimmed(hay@.subrange(lo as int, hi as int)),
{
    let mut a: usize = lo;
    while a < hi && is_white_space_char(hay[a])
        invariant
            lo <= a <= hi <= hay.len(),
            trim_start(hay@.subrange(lo as int, hi as int)) == trim_start(
                hay@.subrange(a as int, hi as int),
            ),
        decreases hi - a,
    {
        assert(hay@.subrange(a as int, hi as int).drop_first() =~= hay@.subrange(
            a + 1,
            hi as int,
        ));
        a += 1;
    }
    let mut b: usize = hi;
    while b > a && is_white_space_char(hay[b - 1])
        invariant
            lo <= a <= b <= hi <= hay.len(),
            trim_end(hay@.subrange(a as int, hi as int)) == trim_end(
                hay@.subrange(a as int, b as int),
            ),
        decreases b - a,
    {
        assert(hay@.subrange(a as int, b as int).drop_last() =~= hay@.subrange(
            a as int,
            b - 1,
        ));
        b -= 1;
    }
    (a, b)
}

/// The bounds of each line of `text`, in order.
pub fn line_spans(text: &Vec<char>) -> (r: Vec<(usize, usize)>)
    ensures
        r@.len() == lines_of(text@).len(),
        forall|k: int| 0 <= k < r@.len() ==> #[trigger] r@[k].0 <= r@[k].1 <= text.len(),
        forall|k: int|
            0 <= k < r@.len() ==> text@.subrange(r@[k].0 as int, r@[k].1 as int)
                == #[trigger] lines_of(text@)[k],
{
    let mut r: Vec<(usize, usize)> = Vec::new();
    let mut start: usize = 0;
    let mut i: usize = 0;
    assert(text@.take(0) =~= Seq::<char>::empty());
    while i < text.len()
        invariant
            start <= i <= text.len(),
            split_lf(text@.take(i as int)).len() == r@.len() + 1,
            split_lf(text@.take(i as int)).last() == text@.subrange(start as int, i as int),
            forall|k: int| 0 <= k < r@.len() ==> #[trigger] r@[k].0 <= r@[k].1 <= start,
            forall|k: int|
                0 <= k < r@.len() ==> text@.subrange(r@[k].0 as int, r@[k].1 as int) == strip_cr(
                    #[trigger] split_lf(text@.take(i as int))[k],
                ),
        decreases text.len() - i,
    {
        let ghost prev = split_lf(text@.take(i as int));
        let ghost old_r = r@;
        proof {
            lemma_split_lf_nonempty(text@.take(i as int));
        }
        assert(text@.take(i + 1).drop_last() =~= text@.take(i as int));
        if text[i] == '\n' {
            let end = if i > start && text[i - 1] == '\r' {
                i - 1
            } else {
                i
            };
            assert(text@.subrange(start as int, end as int) == strip_cr(prev.last())) by {
                if i > start && text@[i - 1] == '\r' {
                    assert(prev.last().drop_last() =~= text@.subrange(start as int, end as int));
                }
            }
            r.push((start, end));
            start = i + 1;
            assert(text@.subrange(start as int, i + 1) =~= Seq::<char>::empty());
            assert(split_lf(text@.take(i + 1)) == prev.push(Seq::empty()));
            assert forall|k: int| 0 <= k < r@.len() implies text@.subrange(r@[k].0 as int, r@[k].1 as int) == strip_cr(
                #[trigger] split_lf(text@.take(i + 1))[k],
            ) by {
                if k < old_r.len() {
                    assert(r@[k] == old_r[k]);
                    assert(prev[k] == split_lf(text@.take(i as int))[k]);
                }
            }
        } else {
            assert(text@.subrange(start as int, i + 1) =~= text@.subrange(
                start as int,
                i as int,
            ).push(text@[i as int]));
            assert(split_lf(text@.take(i + 1)) == prev.update(
                prev.len() - 1,
                prev.last().push(text@[i as int]),
            ));
            assert forall|k: int| 0 <= k < r@.len() implies text@.subrange(r@[k].0 as int, r@[k].1 as int) == strip_cr(
                #[trigger] split_lf(text@.take(i + 1))[k],
            ) by {
                assert(prev[k] == split_lf(text@.take(i as int))[k]);
            }
        }
        i += 1;
    }
    assert(text@.take(i as int) =~= text@);
    let ghost segs = split_lf(text@);
    assert(segs == split_lf(text@.take(i as int)));
    let ghost done = r@;
    if start < text.len() {
        r.push((start, text.len()));
    }
    assert forall|k: int| 0 <= k < r@.len() implies text@.subrange(r@[k].0 as int, r@[k].1 as int) == #[trigger] lines_of(text@)[k] by {
        if k < done.len() {
            assert(r@[k] == done[k]);
            assert(segs[k] == split_lf(text@.take(i as int))[k]);
        }
    }
    r
}

} // verus!
