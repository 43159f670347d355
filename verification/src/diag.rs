//! Rendering a chain of error causes for the processing-failure log line.

use vstd::prelude::*;

use crate::text::owned;

verus! {

/// `frames` with every frame equal to the one just before it left out.
pub open spec fn dedup_frames(frames: Seq<Seq<char>>) -> Seq<Seq<char>>
    decreases frames.len(),
{
    if frames.len() == 0 {
        Seq::empty()
    } else {
        let d = dedup_frames(frames.drop_last());
        if frames.len() > 1 && frames.last() == frames[frames.len() - 2] {
            d
        } else {
            d.push(frames.last())
        }
    }
}

/// `parts` joined with `": "`.
pub open spec fn join_causes(parts: Seq<Seq<char>>) -> Seq<char>
    decreases parts.len(),
{
    if parts.len() == 0 {
        Seq::empty()
    } else if parts.len() == 1 {
        parts[0]
    } else {
        join_causes(parts.drop_last()) + ": "@ + parts.last()
    }
}

/// The texts of a list of strings.
pub open spec fn frame_texts(v: Seq<String>) -> Seq<Seq<char>> {
    v.map_values(|s: String| s@)
}

proof fn lemma_dedup_nonempty(frames: Seq<Seq<char>>)
    requires
        frames.len() > 0,
    ensures
        dedup_frames(frames).len() > 0,
        dedup_frames(frames).last() == frames.last(),
    decreases frames.len(),
{
    if frames.len() > 1 {
        lemma_dedup_nonempty(frames.drop_last());
        assert(frames.drop_last().last() == frames[frames.len() - 2]);
    }
}

/// Renders the causes of an error like `{err:#}`, outermost first, joined
/// by `": "`, with a cause whose text repeats the one just before it left
/// out.
pub fn render_chain(frames: &Vec<String>) -> (r: String)
    ensures
        r@ == join_causes(dedup_frames(frame_texts(frames@))),
{
    let mut out = String::new();
    let mut prev: Option<&String> = None;
    let n = frames.len();
    for i in 0..n
        invariant
            n == frames@.len(),
            out@ == join_causes(dedup_frames(frame_texts(frames@.take(i as int)))),
            i == 0 ==> prev is None,
            i > 0 ==> (prev matches Some(p) && p@ == frames@[i - 1]@),
    {
        let frame = &frames[i];
        let ghost t0 = frame_texts(frames@.take(i as int));
        let ghost t = frame_texts(frames@.take(i + 1));
        proof {
            assert(t.drop_last() =~= t0);
            assert(t.last() == frame@);
            if i > 0 {
                assert(t[i - 1] == frames@[i - 1]@);
                lemma_dedup_nonempty(t0);
            }
        }
        let repeated = match prev {
            Some(p) => *p == *frame,
            None => false,
        };
        if !repeated {
            let ghost d = dedup_frames(t0);
            if prev.is_some() {
                out.append(": ");
            }
            out.append(frame.as_str());
            proof {
                assert(dedup_frames(t) == d.push(frame@));
                assert(d.push(frame@).drop_last() =~= d);
                if i == 0 {
                    assert(d.len() == 0);
                }
            }
        } else {
            proof {
                assert(dedup_frames(t) == dedup_frames(t0));
            }
        }
        prev = Some(frame);
    }
    proof {
        assert(frames@.take(n as int) =~= frames@);
    }
    out
}

/// The processing-failure log line: the context, `": "`, the rendered
/// chain.
pub fn failure_message(context: &str, frames: &Vec<String>) -> (r: String)
    ensures
        r@ == context@ + ": "@ + join_causes(dedup_frames(frame_texts(frames@))),
{
    let mut s = owned(context);
    s.append(": ");
    let chain = render_chain(frames);
    s.append(chain.as_str());
    s
}

/// Repeated causes are rendered once: a chain whose causes all have the
/// same text renders as that text alone.
pub proof fn lemma_repeated_frame_rendered_once(frames: Seq<Seq<char>>, frame: Seq<char>)
    requires
        frames.len() > 0,
        forall|i: int| 0 <= i < frames.len() ==> #[trigger] frames[i] == frame,
    ensures
        dedup_frames(frames) == seq![frame],
        join_causes(dedup_frames(frames)) == frame,
    decreases frames.len(),
{
    let t = frames.drop_last();
    assert(frames.last() == frame);
    if frames.len() > 1 {
        assert forall|i: int| 0 <= i < t.len() implies #[trigger] t[i] == frame by {
            assert(t[i] == frames[i]);
        }
        lemma_repeated_frame_rendered_once(t, frame);
        assert(frames[frames.len() - 2] == frame);
        assert(dedup_frames(frames) == dedup_frames(t));
    } else {
        assert(t =~= Seq::<Seq<char>>::empty());
        assert(dedup_frames(t) == Seq::<Seq<char>>::empty());
        assert(Seq::<Seq<char>>::empty().push(frame) =~= seq![frame]);
        assert(dedup_frames(frames) == seq![frame]);
    }
    assert(seq![frame].len() == 1 && seq![frame][0] == frame);
}

/// With no two consecutive causes equal, nothing is left out: the chain is
/// every cause joined by `": "`, which is what `{err:#}` prints.
pub proof fn lemma_chain_without_repeats(frames: Seq<Seq<char>>)
    requires
        forall|i: int| 0 < i < frames.len() ==> #[trigger] frames[i] != frames[i - 1],
    ensures
        dedup_frames(frames) == frames,
        join_causes(dedup_frames(frames)) == join_causes(frames),
    decreases frames.len(),
{
    if frames.len() > 0 {
        let p = frames.drop_last();
        assert forall|i: int| 0 < i < p.len() implies #[trigger] p[i] != p[i - 1] by {
            assert(p[i] == frames[i] && p[i - 1] == frames[i - 1]);
        }
        lemma_chain_without_repeats(p);
        if frames.len() > 1 {
            assert(frames[frames.len() - 1] != frames[frames.len() - 2]);
        }
        assert(p.push(frames.last()) =~= frames);
    }
}

} // verus!
