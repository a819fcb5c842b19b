use vstd::prelude::*;

verus! {

/// The pieces of `s` between line feeds, in order; there is always one more
/// piece than there are line feeds, so the last piece may be empty.
pub open spec fn segments(s: Seq<char>) -> Seq<Seq<char>>
    decreases s.len(),
{
    if s.len() == 0 {
        seq![seq![]]
    } else {
        let before = segments(s.drop_last());
        if s.last() == '\n' {
            before.push(seq![])
        } else {
            before.update(before.len() - 1, before.last().push(s.last()))
        }
    }
}

/// A line that ended in a line feed, without the carriage return before it.
pub open spec fn strip_cr(l: Seq<char>) -> Seq<char> {
    if l.len() > 0 && l.last() == '\r' {
        l.drop_last()
    } else {
        l
    }
}

/// The lines of `s`: split at each `\n` or `\r\n`, with the final line ending
/// optional, so that an empty tail after the last line feed is no line.
pub open spec fn lines_of(s: Seq<char>) -> Seq<Seq<char>> {
    let seg = segments(s);
    let ended = seg.drop_last().map_values(|l: Seq<char>| strip_cr(l));
    if seg.last().len() == 0 {
        ended
    } else {
        ended.push(seg.last())
    }
}

proof fn lemma_segments_not_empty(s: Seq<char>)
    ensures
        segments(s).len() >= 1,
    decreases s.len(),
{
    if s.len() > 0 {
        lemma_segments_not_empty(s.drop_last());
    }
}

/// Splits `text` into its lines, as `lines_of` describes.
pub fn split_lines(text: &Vec<char>) -> (r: Vec<Vec<char>>)
    ensures
        r@.map_values(|l: Vec<char>| l@) == lines_of(text@),
{
    let mut out: Vec<Vec<char>> = Vec::new();
    let mut cur: Vec<char> = Vec::new();
    let mut i: usize = 0;
    while i < text.len()
        invariant
            i <= text@.len(),
            segments(text@.subrange(0, i as int)).len() >= 1,
            out@.map_values(|l: Vec<char>| l@) == segments(
                text@.subrange(0, i as int),
            ).drop_last().map_values(|l: Seq<char>| strip_cr(l)),
            cur@ == segments(text@.subrange(0, i as int)).last(),
        decreases text@.len() - i,
    {
        let ghost pre = text@.subrange(0, i as int);
        let ghost next = text@.subrange(0, i + 1);
        assert(next.drop_last() =~= pre);
        let c = text[i];
        if c == '\n' {
            let ghost segs = segments(pre);
            let ghost old_out = out@;
            assert(next.last() == '\n');
            assert(segments(next).drop_last() =~= segs);
            assert(segs =~= segs.drop_last().push(segs.last()));
            let mut done = cur;
            if done.len() > 0 && done[done.len() - 1] == '\r' {
                done.pop();
            }
            assert(done@ == strip_cr(segs.last()));
            out.push(done);
            cur = Vec::new();
            assert(out@.map_values(|l: Vec<char>| l@) =~= old_out.map_values(|l: Vec<char>| l@).push(
                strip_cr(segs.last()),
            ));
            assert(out@.map_values(|l: Vec<char>| l@) =~= segments(next).drop_last().map_values(
                |l: Seq<char>| strip_cr(l),
            ));
        } else {
            cur.push(c);
            assert(segments(next).drop_last() =~= segments(pre).drop_last());
        }
        i = i + 1;
    }
    assert(text@.subrange(0, i as int) =~= text@);
    if cur.len() > 0 {
        let ghost before = out@;
        out.push(cur);
        assert(out@.map_values(|l: Vec<char>| l@) =~= before.map_values(|l: Vec<char>| l@).push(
            segments(text@).last(),
        ));
    }
    out
}

} // verus!
