//! Paths inside a package: the parts of an archive are named by paths
//! relative to its root, with `/` between the segments.

use crate::text::chars_of;
use vstd::prelude::*;

verus! {

/// The segments of a path: what stands between its `/`. A path without a
/// `/` is one segment; the empty path is one empty segment.
pub open spec fn split_path(path: Seq<char>) -> Seq<Seq<char>>
    decreases path.len(),
{
    if path.len() == 0 {
        seq![Seq::empty()]
    } else {
        let init = split_path(path.drop_last());
        if path.last() == '/' {
            init.push(Seq::empty())
        } else {
            init.drop_last().push(init.last().push(path.last()))
        }
    }
}

/// One segment met while a path is resolved: an empty segment and `.` change
/// nothing, `..` leaves the directory that was entered last (if there is
/// one), any other segment is entered.
pub open spec fn resolve_step(stack: Seq<Seq<char>>, segment: Seq<char>) -> Seq<Seq<char>> {
    if segment.len() == 0 || segment == seq!['.'] {
        stack
    } else if segment == seq!['.', '.'] {
        if stack.len() > 0 {
            stack.drop_last()
        } else {
            stack
        }
    } else {
        stack.push(segment)
    }
}

/// The segments that are left when a list of segments is walked in order.
pub open spec fn resolve_segments(segments: Seq<Seq<char>>) -> Seq<Seq<char>>
    decreases segments.len(),
{
    if segments.len() == 0 {
        Seq::empty()
    } else {
        resolve_step(resolve_segments(segments.drop_last()), segments.last())
    }
}

/// The segments with a `/` between each two of them.
pub open spec fn join_path(segments: Seq<Seq<char>>) -> Seq<char>
    decreases segments.len(),
{
    if segments.len() == 0 {
        Seq::empty()
    } else if segments.len() == 1 {
        segments[0]
    } else {
        join_path(segments.drop_last()) + seq!['/'] + segments.last()
    }
}

/// A path with its `.` and `..` segments resolved and its empty segments
/// dropped.
pub open spec fn resolved_path(path: Seq<char>) -> Seq<char> {
    join_path(resolve_segments(split_path(path)))
}

/// The views of a list of segments.
pub open spec fn segments_view(segments: Seq<Vec<char>>) -> Seq<Seq<char>> {
    segments.map_values(|s: Vec<char>| s@)
}

/// A segment of a resolved path is a name: it is not empty, not `.` and
/// not `..`.
pub open spec fn is_plain_segment(segment: Seq<char>) -> bool {
    segment.len() > 0 && segment != seq!['.'] && segment != seq!['.', '.']
}

/// Resolving leaves only plain segments, whatever the path.
pub proof fn lemma_resolved_segments_are_plain(segments: Seq<Seq<char>>)
    ensures
        forall|i: int|
            0 <= i < resolve_segments(segments).len() ==> is_plain_segment(
                #[trigger] resolve_segments(segments)[i],
            ),
    decreases segments.len(),
{
    if segments.len() > 0 {
        lemma_resolved_segments_are_plain(segments.drop_last());
        let before = resolve_segments(segments.drop_last());
        let after = resolve_segments(segments);
        assert(after == resolve_step(before, segments.last()));
        assert forall|i: int| 0 <= i < after.len() implies is_plain_segment(
            #[trigger] after[i],
        ) by {
            if i < before.len() {
                assert(after[i] == before[i]);
            }
        }
    }
}

fn enter_segment(stack: &mut Vec<Vec<char>>, segment: Vec<char>)
    ensures
        segments_view(final(stack)@) == resolve_step(segments_view(old(stack)@), segment@),
{
    if segment.len() == 0 || (segment.len() == 1 && segment[0] == '.') {
        assert(segment.len() == 1 && segment@[0] == '.' ==> segment@ =~= seq!['.']);
    } else if segment.len() == 2 && segment[0] == '.' && segment[1] == '.' {
        assert(segment@ =~= seq!['.', '.']);
        if stack.len() > 0 {
            stack.pop();
            assert(segments_view(stack@) =~= segments_view(old(stack)@).drop_last());
        }
    } else {
        assert(segment@ != seq!['.']) by {
            if segment@ == seq!['.'] {
                assert(segment@.len() == 1 && segment@[0] == '.');
            }
        }
        assert(segment@ != seq!['.', '.']) by {
            if segment@ == seq!['.', '.'] {
                assert(segment@.len() == 2 && segment@[0] == '.' && segment@[1] == '.');
            }
        }
        stack.push(segment);
        assert(segments_view(stack@) =~= segments_view(old(stack)@).push(segment@));
    }
}

fn join_segments(segments: &Vec<Vec<char>>) -> (r: String)
    ensures
        r@ == join_path(segments_view(segments@)),
{
    let mut r = String::new();
    let mut k: usize = 0;
    while k < segments.len()
        invariant
            k <= segments@.len(),
            r@ == join_path(segments_view(segments@).take(k as int)),
        decreases segments@.len() - k,
    {
        let ghost before = r@;
        if k > 0 {
            r.push('/');
        }
        let segment = &segments[k];
        let mut j: usize = 0;
        let ghost head = r@;
        while j < segment.len()
            invariant
                j <= segment@.len(),
                r@ == head + segment@.take(j as int),
            decreases segment@.len() - j,
        {
            r.push(segment[j]);
            assert(segment@.take(j + 1) =~= segment@.take(j as int).push(segment@[j as int]));
            j += 1;
        }
        proof {
            let all = segments_view(segments@);
            assert(segment@.take(segment@.len() as int) =~= segment@);
            assert(all.take(k + 1).drop_last() =~= all.take(k as int));
            assert(all.take(k + 1).last() == segment@);
            if k == 0 {
                assert(all.take(1).len() == 1);
                assert(before =~= Seq::<char>::empty());
                assert(r@ =~= segment@);
            } else {
                assert(r@ =~= before + seq!['/'] + segment@);
            }
        }
        k += 1;
    }
    assert(segments_view(segments@).take(k as int) =~= segments_view(segments@));
    r
}

/// Resolves a path inside a package: `.` and empty segments fall away and
/// each `..` takes back the segment before it.
pub fn resolve_zip_file_path(path: &str) -> (r: String)
    ensures
        r@ == resolved_path(path@),
{
    let chars = chars_of(path);
    let mut stack: Vec<Vec<char>> = Vec::new();
    let mut current: Vec<char> = Vec::new();
    let mut i: usize = 0;
    assert(chars@.take(0) =~= Seq::<char>::empty());
    assert(segments_view(stack@) =~= resolve_segments(split_path(chars@.take(0)).drop_last()));
    while i < chars.len()
        invariant
            i <= chars@.len(),
            chars@ == path@,
            split_path(chars@.take(i as int)).len() > 0,
            current@ == split_path(chars@.take(i as int)).last(),
            segments_view(stack@) == resolve_segments(
                split_path(chars@.take(i as int)).drop_last(),
            ),
        decreases chars@.len() - i,
    {
        let ghost init = split_path(chars@.take(i as int));
        proof {
            assert(chars@.take(i + 1).drop_last() =~= chars@.take(i as int));
            assert(chars@.take(i + 1).last() == chars@[i as int]);
        }
        if chars[i] == '/' {
            enter_segment(&mut stack, current);
            current = Vec::new();
            proof {
                let next = split_path(chars@.take(i + 1));
                assert(next == init.push(Seq::empty()));
                assert(next.drop_last() =~= init);
            }
        } else {
            current.push(chars[i]);
            proof {
                let next = split_path(chars@.take(i + 1));
                assert(next == init.drop_last().push(init.last().push(chars@[i as int])));
                assert(next.drop_last() =~= init.drop_last());
            }
        }
        i += 1;
    }
    assert(chars@.take(i as int) =~= chars@);
    enter_segment(&mut stack, current);
    join_segments(&stack)
}

} // verus!
