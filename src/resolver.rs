//! The resolver: from a station URL down through redirects and playlists to
//! the streams it leads to. It does no I/O itself. It says what it needs next
//! (a response head for a URL, or the body of the current response) and is
//! handed what came back, so its decisions are verified against `resolve`,
//! the meaning of a resolution over a model of the web.

use vstd::prelude::*;
use crate::headers::{HeadView, HttpHeaders};
use crate::text::is_blank;
use crate::content_type::content_class;
use crate::urls::{parse_url, url_parse_of};
use crate::playlist::{decode, is_content_hls, is_hls_text, playlist_urls_of, entries_of, entries_view, playlist_entries, texts_view, Entry};
use crate::streamcheck::{
    classify, hls_info, hls_info_of, outcome_view, outcomes_view, reaction, stream_info, stream_info_of,
    Outcome, OutcomeView, Reaction, ReactionView, StreamCheckError,
};

verus! {

/// What a server answers for a URL, as far as resolution looks at it: a
/// failure to connect or to read a head, or a head together with what its
/// body would show if it is a playlist (whether it is an HLS manifest, and
/// the URLs that decoding it gives, in decoding order).
pub ghost enum Answer {
    Refused(Seq<char>),
    Served { head: HeadView, hls: bool, listing: Result<Seq<Seq<char>>, Seq<char>> },
}

/// A model of the web: the answer for each URL.
pub type Web = spec_fn(Seq<char>) -> Answer;

pub open spec fn has_found(o: Seq<OutcomeView>) -> bool {
    exists|i: int| 0 <= i < o.len() && #[trigger] o[i] is Found
}

pub open spec fn depth_error(url: Seq<char>) -> OutcomeView {
    OutcomeView::Failed(url, "max depth reached"@)
}

/// The outcomes of resolving `url` with `depth` more hops allowed. A
/// redirect and a playlist each take one hop; a hop beyond the limit is an
/// error for that branch. Without `all`, the entries of a playlist are tried
/// until one of them leads to a stream.
pub open spec fn resolve(web: Web, url: Seq<char>, all: bool, depth: nat) -> Seq<OutcomeView>
    decreases depth, 2nat, 0nat,
{
    match web(url) {
        Answer::Refused(m) => seq![OutcomeView::Failed(url, m)],
        Answer::Served { head, hls, listing } => match reaction(head) {
            ReactionView::Failure(m) => seq![OutcomeView::Failed(url, m)],
            ReactionView::Stream(c) => seq![OutcomeView::Found(stream_info_of(url, head, c))],
            ReactionView::Redirect(loc) => if depth == 0 {
                seq![depth_error(url)]
            } else {
                resolve(web, loc, all, (depth - 1) as nat)
            },
            ReactionView::Playlist => playlist_outcomes(web, url, hls, listing, all, depth),
        },
    }
}

/// The outcomes of a playlist at `url`, from what its body shows.
pub open spec fn playlist_outcomes(
    web: Web,
    url: Seq<char>,
    hls: bool,
    listing: Result<Seq<Seq<char>>, Seq<char>>,
    all: bool,
    depth: nat,
) -> Seq<OutcomeView>
    decreases depth, 1nat, 0nat,
{
    if hls {
        seq![OutcomeView::Found(hls_info_of(url))]
    } else if url_parse_of(url) is Err {
        seq![OutcomeView::Failed(url, url_parse_of(url)->Err_0)]
    } else {
        match listing {
            Err(m) => seq![OutcomeView::Failed(url, m)],
            Ok(l) => {
                let es = entries_of(url, l);
                if es.len() == 0 {
                    seq![OutcomeView::Failed(url, "Empty playlist"@)]
                } else if depth == 0 {
                    seq![depth_error(url)]
                } else {
                    resolve_list(web, url, es, all, (depth - 1) as nat)
                }
            },
        }
    }
}

/// The outcomes of the entries of the playlist at `base`, in order.
pub open spec fn resolve_list(
    web: Web,
    base: Seq<char>,
    es: Seq<Result<Seq<char>, Seq<char>>>,
    all: bool,
    depth: nat,
) -> Seq<OutcomeView>
    decreases depth, 3nat, es.len(),
{
    if es.len() == 0 {
        Seq::empty()
    } else {
        let rest = resolve_list(web, base, es.drop_first(), all, depth);
        match es[0] {
            Err(m) => seq![OutcomeView::Failed(base, m)] + rest,
            Ok(u) => {
                let r = resolve(web, u, all, depth);
                if !all && has_found(r) {
                    r
                } else {
                    r + rest
                }
            },
        }
    }
}

/// One piece of pending work.
pub enum Frame {
    /// A URL whose response head is awaited.
    Visit { url: String, depth: u32 },
    /// A playlist whose body is awaited.
    Body { url: String, depth: u32 },
    /// The entries of a playlist; those before `next` are done, and the
    /// outcomes of the last one done start at `mark`.
    Listing { base: String, entries: Vec<Entry>, next: usize, depth: u32, mark: usize },
}

pub ghost enum FrameView {
    Visit(Seq<char>, nat),
    Body(Seq<char>, nat),
    Listing(Seq<char>, Seq<Result<Seq<char>, Seq<char>>>, int, nat, int),
}

pub open spec fn frame_view(f: Frame) -> FrameView {
    match f {
        Frame::Visit { url, depth } => FrameView::Visit(url@, depth as nat),
        Frame::Body { url, depth } => FrameView::Body(url@, depth as nat),
        Frame::Listing { base, entries, next, depth, mark } => FrameView::Listing(
            base@,
            entries_view(entries@),
            next as int,
            depth as nat,
            mark as int,
        ),
    }
}

pub open spec fn frames_view(s: Seq<Frame>) -> Seq<FrameView> {
    s.map_values(|f: Frame| frame_view(f))
}

/// The outcomes of a playlist body at `url`, as the web answers it.
pub open spec fn body_outcomes(web: Web, url: Seq<char>, all: bool, depth: nat) -> Seq<OutcomeView> {
    match web(url) {
        Answer::Refused(m) => seq![OutcomeView::Failed(url, m)],
        Answer::Served { head, hls, listing } => playlist_outcomes(web, url, hls, listing, all, depth),
    }
}

/// All outcomes at the end, from the outcomes so far and the pending work.
pub open spec fn complete(web: Web, all: bool, out: Seq<OutcomeView>, stack: Seq<FrameView>) -> Seq<OutcomeView>
    decreases stack.len(),
{
    if stack.len() == 0 {
        out
    } else {
        let rest = stack.drop_last();
        match stack.last() {
            FrameView::Visit(u, d) => complete(web, all, out + resolve(web, u, all, d), rest),
            FrameView::Body(u, d) => complete(web, all, out + body_outcomes(web, u, all, d), rest),
            FrameView::Listing(base, es, next, d, mark) => if !all && has_found(out.subrange(mark, out.len() as int)) {
                complete(web, all, out, rest)
            } else {
                complete(web, all, out + resolve_list(web, base, es.subrange(next, es.len() as int), all, d), rest)
            },
        }
    }
}

/// Whether the answer for `url` is what a fetch handed back.
pub open spec fn head_answer_is(web: Web, url: Seq<char>, fetched: Result<HeadView, Seq<char>>) -> bool {
    match (web(url), fetched) {
        (Answer::Refused(m), Err(e)) => m == e,
        (Answer::Served { head, .. }, Ok(h)) => head == h,
        _ => false,
    }
}

/// Whether the answer for `url` shows the playlist body that was read.
pub open spec fn body_answer_is(
    web: Web,
    url: Seq<char>,
    hls: bool,
    listing: Result<Seq<Seq<char>>, Seq<char>>,
) -> bool {
    match web(url) {
        Answer::Served { hls: h, listing: l, .. } => h == hls && l == listing,
        _ => false,
    }
}

/// One step of the resolver: the frame on top gives way to an outcome, or
/// to another frame.
pub ghost enum Step {
    Settle(OutcomeView),
    Replace(FrameView),
}

/// The step for a response head fetched for `url`, with `depth` hops left.
pub open spec fn head_step(url: Seq<char>, depth: nat, fetched: Result<HeadView, Seq<char>>) -> Step {
    match fetched {
        Err(m) => Step::Settle(OutcomeView::Failed(url, m)),
        Ok(h) => match reaction(h) {
            ReactionView::Failure(m) => Step::Settle(OutcomeView::Failed(url, m)),
            ReactionView::Stream(c) => Step::Settle(OutcomeView::Found(stream_info_of(url, h, c))),
            ReactionView::Redirect(loc) => if depth == 0 {
                Step::Settle(depth_error(url))
            } else {
                Step::Replace(FrameView::Visit(loc, (depth - 1) as nat))
            },
            ReactionView::Playlist => Step::Replace(FrameView::Body(url, depth)),
        },
    }
}

/// The step for the body of the playlist at `url`, with `depth` hops left
/// and `n_out` outcomes so far.
pub open spec fn body_step(
    url: Seq<char>,
    depth: nat,
    hls: bool,
    listing: Result<Seq<Seq<char>>, Seq<char>>,
    n_out: int,
) -> Step {
    if hls {
        Step::Settle(OutcomeView::Found(hls_info_of(url)))
    } else if url_parse_of(url) is Err {
        Step::Settle(OutcomeView::Failed(url, url_parse_of(url)->Err_0))
    } else {
        match listing {
            Err(m) => Step::Settle(OutcomeView::Failed(url, m)),
            Ok(l) => if entries_of(url, l).len() == 0 {
                Step::Settle(OutcomeView::Failed(url, "Empty playlist"@))
            } else if depth == 0 {
                Step::Settle(depth_error(url))
            } else {
                Step::Replace(FrameView::Listing(url, entries_of(url, l), 0, (depth - 1) as nat, n_out))
            },
        }
    }
}

/// What the resolver needs next.
pub enum Action {
    /// The response head for this URL.
    Fetch(String),
    /// The body of the response whose head was handed in last.
    ReadBody,
    /// Nothing: the outcomes are final.
    Finished,
}

/// The resolver's state: the outcomes so far and a stack of pending work.
pub struct Resolver {
    check_all: bool,
    stack: Vec<Frame>,
    outcomes: Vec<Outcome>,
}

impl Resolver {
    pub closed spec fn all_spec(&self) -> bool {
        self.check_all
    }

    pub closed spec fn outcomes_spec(&self) -> Seq<OutcomeView> {
        outcomes_view(self.outcomes@)
    }

    pub closed spec fn stack_spec(&self) -> Seq<FrameView> {
        frames_view(self.stack@)
    }

    /// All outcomes at the end, for a given web.
    pub open spec fn remaining(&self, web: Web) -> Seq<OutcomeView> {
        complete(web, self.all_spec(), self.outcomes_spec(), self.stack_spec())
    }

    pub open spec fn wf(&self) -> bool {
        frames_ok(self.stack_spec(), self.outcomes_spec().len() as int)
    }

    /// The URL of the response that is awaited, head or body.
    pub open spec fn current_url(&self) -> Seq<char> {
        match self.stack_spec().last() {
            FrameView::Visit(u, _) => u,
            FrameView::Body(u, _) => u,
            FrameView::Listing(u, _, _, _, _) => u,
        }
    }

    /// The hops left for the response that is awaited.
    pub open spec fn current_depth(&self) -> nat {
        match self.stack_spec().last() {
            FrameView::Visit(_, d) => d,
            FrameView::Body(_, d) => d,
            FrameView::Listing(_, _, _, d, _) => d,
        }
    }

    /// `next` is `self` after `step`.
    pub open spec fn stepped(&self, next: Resolver, step: Step) -> bool {
        &&& next.all_spec() == self.all_spec()
        &&& match step {
            Step::Settle(o) => next.stack_spec() == self.stack_spec().drop_last() && next.outcomes_spec()
                == self.outcomes_spec().push(o),
            Step::Replace(f) => next.stack_spec() == self.stack_spec().drop_last().push(f)
                && next.outcomes_spec() == self.outcomes_spec(),
        }
    }

    pub open spec fn awaits_head(&self) -> bool {
        self.stack_spec().len() > 0 && self.stack_spec().last() is Visit
    }

    pub open spec fn awaits_body(&self) -> bool {
        self.stack_spec().len() > 0 && self.stack_spec().last() is Body
    }

    /// A resolver for `url`, allowing `max_depth` hops.
    pub fn new(url: &str, check_all: bool, max_depth: u32) -> (r: Resolver)
        ensures
            r.wf(),
            r.all_spec() == check_all,
            forall|web: Web| #[trigger] r.remaining(web) == resolve(web, url@, check_all, max_depth as nat),
    {
        let mut stack: Vec<Frame> = Vec::new();
        stack.push(Frame::Visit { url: url.to_string(), depth: max_depth });
        let r = Resolver { check_all, stack, outcomes: Vec::new() };
        assert forall|web: Web| #[trigger] r.remaining(web) == resolve(web, url@, check_all, max_depth as nat) by {
            let e = Seq::<FrameView>::empty();
            assert(r.stack_spec().drop_last() =~= e);
            assert(r.stack_spec().last() == FrameView::Visit(url@, max_depth as nat));
            assert(r.outcomes_spec() =~= Seq::<OutcomeView>::empty());
            let res = resolve(web, url@, check_all, max_depth as nat);
            assert(complete(web, check_all, Seq::<OutcomeView>::empty() + res, e) == Seq::<OutcomeView>::empty() + res);
            assert(Seq::<OutcomeView>::empty() + resolve(web, url@, check_all, max_depth as nat) =~= resolve(
                web,
                url@,
                check_all,
                max_depth as nat,
            ));
        }
        r
    }
}

} // verus!

verus! {

/// Unfolds `complete` at a frame on top of `rest`.
proof fn lemma_complete_top(web: Web, all: bool, out: Seq<OutcomeView>, rest: Seq<FrameView>, f: FrameView)
    ensures
        complete(web, all, out, rest.push(f)) == match f {
            FrameView::Visit(u, d) => complete(web, all, out + resolve(web, u, all, d), rest),
            FrameView::Body(u, d) => complete(web, all, out + body_outcomes(web, u, all, d), rest),
            FrameView::Listing(base, es, next, d, mark) => if !all && has_found(out.subrange(mark, out.len() as int)) {
                complete(web, all, out, rest)
            } else {
                complete(web, all, out + resolve_list(web, base, es.subrange(next, es.len() as int), all, d), rest)
            },
        },
{
    assert(rest.push(f).drop_last() =~= rest);
}

proof fn lemma_frames_push(s: Seq<Frame>, f: Frame)
    ensures
        frames_view(s.push(f)) == frames_view(s).push(frame_view(f)),
{
    assert(frames_view(s.push(f)) =~= frames_view(s).push(frame_view(f)));
}

proof fn lemma_outcomes_push(s: Seq<Outcome>, o: Outcome)
    ensures
        outcomes_view(s.push(o)) == outcomes_view(s).push(outcome_view(o)),
{
    assert(outcomes_view(s.push(o)) =~= outcomes_view(s).push(outcome_view(o)));
}

proof fn lemma_frames_drop_last(s: Seq<Frame>)
    requires
        s.len() > 0,
    ensures
        frames_view(s.drop_last()) == frames_view(s).drop_last(),
        frames_view(s).last() == frame_view(s.last()),
{
    assert(frames_view(s.drop_last()) =~= frames_view(s).drop_last());
}

/// A frame whose positions fit the entries and the outcomes so far.
pub open spec fn frame_ok(f: FrameView, n_out: int) -> bool {
    match f {
        FrameView::Listing(_, es, next, _, mark) => 0 <= next <= es.len() && 0 <= mark <= n_out,
        _ => true,
    }
}

pub open spec fn frames_ok(s: Seq<FrameView>, n_out: int) -> bool {
    forall|i: int| 0 <= i < s.len() ==> frame_ok(#[trigger] s[i], n_out)
}

proof fn lemma_frames_ok_grow(s: Seq<FrameView>, n: int, m: int, f: FrameView)
    requires
        frames_ok(s, n),
        n <= m,
        frame_ok(f, m),
    ensures
        frames_ok(s.push(f), m),
{
    assert forall|i: int| 0 <= i < s.push(f).len() implies frame_ok(#[trigger] s.push(f)[i], m) by {
        if i < s.len() {
            assert(s.push(f)[i] == s[i]);
            assert(frame_ok(s[i], n));
        }
    }
}

proof fn lemma_frames_ok_drop(s: Seq<FrameView>, n: int)
    requires
        frames_ok(s, n),
        s.len() > 0,
    ensures
        frames_ok(s.drop_last(), n),
        frame_ok(s.last(), n),
{
    assert forall|i: int| 0 <= i < s.drop_last().len() implies frame_ok(#[trigger] s.drop_last()[i], n) by {
        assert(s.drop_last()[i] == s[i]);
    }
}

impl Resolver {
    /// Whether an outcome at or after `mark` found a stream.
    fn found_since(&self, mark: usize) -> (r: bool)
        requires
            mark <= self.outcomes@.len(),
        ensures
            r == has_found(self.outcomes_spec().subrange(mark as int, self.outcomes_spec().len() as int)),
    {
        let ghost o = self.outcomes_spec().subrange(mark as int, self.outcomes_spec().len() as int);
        let mut i = mark;
        while i < self.outcomes.len()
            invariant
                mark <= i <= self.outcomes@.len(),
                o == self.outcomes_spec().subrange(mark as int, self.outcomes_spec().len() as int),
                forall|j: int| 0 <= j < i - mark ==> !(o[j] is Found),
            decreases self.outcomes.len() - i,
        {
            if self.outcomes[i].is_ok() {
                assert(o[i - mark] is Found);
                return true;
            }
            i = i + 1;
        }
        false
    }

    /// Ends the playlist frame on top: its entries are done, or one of them
    /// found a stream and not all are wanted.
    fn drop_listing(&mut self)
        requires
            old(self).wf(),
            old(self).stack@.len() > 0,
            old(self).stack_spec().last() matches FrameView::Listing(_, es, next, _, mark) && ((
            !old(self).all_spec() && has_found(
                old(self).outcomes_spec().subrange(mark, old(self).outcomes_spec().len() as int),
            )) || next >= es.len()),
        ensures
            final(self).wf(),
            final(self).all_spec() == old(self).all_spec(),
            final(self).stack@ == old(self).stack@.drop_last(),
            forall|web: Web| #[trigger] final(self).remaining(web) == old(self).remaining(web),
    {
        let ghost before = *self;
        proof {
            lemma_frames_drop_last(self.stack@);
            lemma_frames_ok_drop(self.stack_spec(), self.outcomes_spec().len() as int);
        }
        self.stack.pop();
        let ghost rest = frames_view(self.stack@);
        let ghost out = self.outcomes_spec();
        let ghost all = self.check_all;
        proof {
            assert forall|web: Web| #[trigger] self.remaining(web) == before.remaining(web) by {
                let fv = before.stack_spec().last();
                lemma_complete_top(web, all, out, rest, fv);
                assert(before.stack_spec() =~= rest.push(fv));
                if let FrameView::Listing(base, es, next, d, mark) = fv {
                    if !(!all && has_found(out.subrange(mark, out.len() as int))) {
                        assert(es.subrange(next, es.len() as int) =~= Seq::<Result<Seq<char>, Seq<char>>>::empty());
                        assert(out + Seq::<OutcomeView>::empty() =~= out);
                    }
                }
            }
        }
    }

    /// Records the failed entry `next` of the playlist frame on top.
    fn fail_entry(&mut self)
        requires
            old(self).wf(),
            old(self).stack@.len() > 0,
            old(self).stack@.last() matches Frame::Listing { entries, next, mark, .. } && next < entries@.len()
                && entries@[next as int] is Err,
            !(old(self).stack_spec().last() matches FrameView::Listing(_, _, _, _, mark) && !old(self).all_spec()
                && has_found(old(self).outcomes_spec().subrange(mark, old(self).outcomes_spec().len() as int))),
        ensures
            final(self).wf(),
            final(self).all_spec() == old(self).all_spec(),
            final(self).stack@.len() == old(self).stack@.len(),
            final(self).stack@.last() matches Frame::Listing { entries, next, .. } && old(self).stack@.last() matches Frame::Listing { entries: e0, next: n0, .. } && entries@.len() == e0@.len() && next == n0 + 1,
            forall|web: Web| #[trigger] final(self).remaining(web) == old(self).remaining(web),
    {
        let ghost before = *self;
        proof {
            lemma_frames_drop_last(self.stack@);
            lemma_frames_ok_drop(self.stack_spec(), self.outcomes_spec().len() as int);
        }
        let top = self.stack.pop();
        let ghost rest = frames_view(self.stack@);
        let ghost out = self.outcomes_spec();
        let ghost all = self.check_all;
        if let Some(Frame::Listing { base, entries, next, depth, mark }) = top {
            let ghost fv = FrameView::Listing(base@, entries_view(entries@), next as int, depth as nat, mark as int);
            let ghost es = entries_view(entries@);
            assert(top == Some(before.stack@.last()));
            assert(next < entries@.len());
            let count = entries.len();
            assert(next < count);
            let after = next + 1;
            let mark2 = self.outcomes.len();
            let msg = match &entries[next] {
                Err(m) => m.clone(),
                Ok(_) => String::new(),
            };
            let failure: Outcome = Err(StreamCheckError { url: base.clone(), details: msg });
            let ghost fo = outcome_view(failure);
            proof {
                lemma_outcomes_push(self.outcomes@, failure);
                assert(es[next as int] == Err::<Seq<char>, Seq<char>>(msg@));
            }
            self.outcomes.push(failure);
            let ghost out2 = self.outcomes_spec();
            let ghost base_v = base@;
            let nf = Frame::Listing { base, entries, next: after, depth, mark: mark2 };
            let ghost nfv = frame_view(nf);
            proof {
                lemma_frames_push(self.stack@, nf);
                lemma_frames_ok_grow(rest, out.len() as int, out2.len() as int, nfv);
            }
            self.stack.push(nf);
            proof {
                let tail = es.subrange(next as int, es.len() as int);
                assert(tail.drop_first() =~= es.subrange(next + 1, es.len() as int));
                assert(out2.subrange(mark2 as int, out2.len() as int) =~= seq![fo]);
                assert(!has_found(seq![fo]));
                assert forall|web: Web| #[trigger] self.remaining(web) == before.remaining(web) by {
                    lemma_complete_top(web, all, out, rest, fv);
                    lemma_complete_top(web, all, out2, rest, nfv);
                    assert(before.stack_spec() =~= rest.push(fv));
                    let rl = resolve_list(web, base_v, es.subrange(next + 1, es.len() as int), all, depth as nat);
                    assert(resolve_list(web, base_v, tail, all, depth as nat) == seq![fo] + rl);
                    assert(out + (seq![fo] + rl) =~= out2 + rl);
                }
            }
        }
    }

    /// Starts on entry `next` of the playlist frame on top, a URL; returns it.
    fn visit_entry(&mut self) -> (r: String)
        requires
            old(self).wf(),
            old(self).stack@.len() > 0,
            old(self).stack@.last() matches Frame::Listing { entries, next, .. } && next < entries@.len()
                && entries@[next as int] is Ok,
            !(old(self).stack_spec().last() matches FrameView::Listing(_, _, _, _, mark) && !old(self).all_spec()
                && has_found(old(self).outcomes_spec().subrange(mark, old(self).outcomes_spec().len() as int))),
        ensures
            final(self).wf(),
            final(self).all_spec() == old(self).all_spec(),
            final(self).awaits_head(),
            final(self).current_url() == r@,
            forall|web: Web| #[trigger] final(self).remaining(web) == old(self).remaining(web),
    {
        let ghost before = *self;
        proof {
            lemma_frames_drop_last(self.stack@);
            lemma_frames_ok_drop(self.stack_spec(), self.outcomes_spec().len() as int);
        }
        let top = self.stack.pop();
        let ghost rest = frames_view(self.stack@);
        let ghost out = self.outcomes_spec();
        let ghost all = self.check_all;
        if let Some(Frame::Listing { base, entries, next, depth, mark }) = top {
            let ghost fv = FrameView::Listing(base@, entries_view(entries@), next as int, depth as nat, mark as int);
            let ghost es = entries_view(entries@);
            assert(top == Some(before.stack@.last()));
            assert(next < entries@.len());
            let count = entries.len();
            assert(next < count);
            let after = next + 1;
            let mark2 = self.outcomes.len();
            let target = match &entries[next] {
                Ok(u) => u.clone(),
                Err(_) => String::new(),
            };
            proof {
                assert(es[next as int] == Ok::<Seq<char>, Seq<char>>(target@));
            }
            let ghost uv = target@;
            let ghost base_v = base@;
            let nf = Frame::Listing { base, entries, next: after, depth, mark: mark2 };
            let ghost nfv = frame_view(nf);
            proof {
                lemma_frames_push(self.stack@, nf);
                lemma_frames_ok_grow(rest, out.len() as int, out.len() as int, nfv);
            }
            self.stack.push(nf);
            let visit = Frame::Visit { url: target.clone(), depth };
            proof {
                lemma_frames_push(self.stack@, visit);
                lemma_frames_ok_grow(rest.push(nfv), out.len() as int, out.len() as int, frame_view(visit));
            }
            self.stack.push(visit);
            proof {
                let tail = es.subrange(next as int, es.len() as int);
                assert(tail.drop_first() =~= es.subrange(next + 1, es.len() as int));
                assert forall|web: Web| #[trigger] self.remaining(web) == before.remaining(web) by {
                    let res = resolve(web, uv, all, depth as nat);
                    lemma_complete_top(web, all, out, rest, fv);
                    lemma_complete_top(web, all, out, rest.push(nfv), FrameView::Visit(uv, depth as nat));
                    lemma_complete_top(web, all, out + res, rest, nfv);
                    assert(before.stack_spec() =~= rest.push(fv));
                    assert((out + res).subrange(mark2 as int, (out + res).len() as int) =~= res);
                    let rl = resolve_list(web, base_v, es.subrange(next + 1, es.len() as int), all, depth as nat);
                    assert(out + (res + rl) =~= (out + res) + rl);
                }
            }
            target
        } else {
            String::new()
        }
    }

    /// Works through finished playlist entries and says what is needed next.
    pub fn next_action(&mut self) -> (r: Action)
        requires
            old(self).wf(),
        ensures
            final(self).wf(),
            final(self).all_spec() == old(self).all_spec(),
            forall|web: Web| #[trigger] final(self).remaining(web) == old(self).remaining(web),
            match r {
                Action::Fetch(u) => final(self).awaits_head() && final(self).current_url() == u@,
                Action::ReadBody => final(self).awaits_body(),
                Action::Finished => final(self).stack_spec().len() == 0,
            },
    {
        loop
            invariant
                self.wf(),
                self.all_spec() == old(self).all_spec(),
                forall|web: Web| #[trigger] self.remaining(web) == old(self).remaining(web),
            decreases self.stack@.len(), match self.stack@.last() {
                Frame::Listing { entries, next, .. } => entries@.len() - next,
                _ => 0,
            },
        {
            let n = self.stack.len();
            if n == 0 {
                return Action::Finished;
            }
            proof {
                lemma_frames_drop_last(self.stack@);
            }
            let (ended, failed) = match &self.stack[n - 1] {
                Frame::Visit { url, .. } => {
                    return Action::Fetch(url.clone());
                },
                Frame::Body { .. } => {
                    return Action::ReadBody;
                },
                Frame::Listing { entries, next, mark, .. } => {
                    proof {
                        lemma_frames_ok_drop(self.stack_spec(), self.outcomes_spec().len() as int);
                    }
                    let ended = (!self.check_all && self.found_since(*mark)) || *next >= entries.len();
                    let failed = !ended && entries[*next].is_err();
                    (ended, failed)
                },
            };
            if ended {
                self.drop_listing();
            } else if failed {
                self.fail_entry();
            } else {
                let u = self.visit_entry();
                return Action::Fetch(u);
            }
        }
    }
}

} // verus!

verus! {

pub open spec fn fetched_view(f: Result<HttpHeaders, String>) -> Result<HeadView, Seq<char>> {
    match f {
        Ok(h) => Ok(h@),
        Err(m) => Err(m@),
    }
}

/// A decoded listing that fits a playlist text: the decoder's URLs, each
/// once, in some order, or its error.
pub open spec fn listing_fits(l: Result<Seq<Seq<char>>, Seq<char>>, content: Seq<char>) -> bool {
    match (l, playlist_urls_of(content)) {
        (Ok(v), Ok(set)) => v.to_set() == set && v.no_duplicates(),
        (Err(e), Err(m)) => e == m,
        _ => false,
    }
}

pub open spec fn listing_view(l: Result<Vec<String>, String>) -> Result<Seq<Seq<char>>, Seq<char>> {
    match l {
        Ok(v) => Ok(texts_view(v@)),
        Err(m) => Err(m@),
    }
}

impl Resolver {
    /// Replaces the frame on top with an outcome.
    fn settle_top(&mut self, o: Outcome)
        requires
            old(self).wf(),
            old(self).stack@.len() > 0,
        ensures
            final(self).wf(),
            final(self).all_spec() == old(self).all_spec(),
            final(self).stack_spec() == old(self).stack_spec().drop_last(),
            final(self).outcomes_spec() == old(self).outcomes_spec().push(outcome_view(o)),
            final(self).stack@ == old(self).stack@.drop_last(),
    {
        proof {
            lemma_frames_drop_last(self.stack@);
            lemma_frames_ok_drop(self.stack_spec(), self.outcomes_spec().len() as int);
            lemma_outcomes_push(self.outcomes@, o);
        }
        self.stack.pop();
        self.outcomes.push(o);
        proof {
            let s = self.stack_spec();
            let n = self.outcomes_spec().len() as int;
            assert forall|i: int| 0 <= i < s.len() implies frame_ok(#[trigger] s[i], n) by {
                assert(frame_ok(s[i], n - 1));
            }
        }
    }

    /// Replaces the frame on top with another.
    fn replace_top(&mut self, f: Frame)
        requires
            old(self).wf(),
            old(self).stack@.len() > 0,
            frame_ok(frame_view(f), old(self).outcomes_spec().len() as int),
        ensures
            final(self).wf(),
            final(self).all_spec() == old(self).all_spec(),
            final(self).stack_spec() == old(self).stack_spec().drop_last().push(frame_view(f)),
            final(self).outcomes_spec() == old(self).outcomes_spec(),
    {
        proof {
            lemma_frames_drop_last(self.stack@);
            lemma_frames_ok_drop(self.stack_spec(), self.outcomes_spec().len() as int);
        }
        self.stack.pop();
        proof {
            lemma_frames_push(self.stack@, f);
            lemma_frames_ok_grow(self.stack_spec(), self.outcomes_spec().len() as int, self.outcomes_spec().len() as int, frame_view(f));
        }
        self.stack.push(f);
    }

    /// Takes the response head for the awaited URL, or why there is none.
    pub fn on_head(&mut self, fetched: &Result<HttpHeaders, String>)
        requires
            old(self).wf(),
            old(self).awaits_head(),
        ensures
            final(self).wf(),
            final(self).all_spec() == old(self).all_spec(),
            old(self).stepped(
                *final(self),
                head_step(old(self).current_url(), old(self).current_depth(), fetched_view(*fetched)),
            ),
            forall|web: Web| head_answer_is(web, old(self).current_url(), fetched_view(*fetched))
                ==> #[trigger] final(self).remaining(web) == old(self).remaining(web),
    {
        let ghost before = *self;
        let ghost fv = fetched_view(*fetched);
        let n = self.stack.len();
        proof {
            lemma_frames_drop_last(self.stack@);
        }
        let (url, depth) = match &self.stack[n - 1] {
            Frame::Visit { url, depth } => (url.clone(), *depth),
            Frame::Body { url, depth } => (url.clone(), *depth),
            Frame::Listing { base, depth, .. } => (base.clone(), *depth),
        };
        let ghost u = url@;
        let ghost d = depth as nat;
        let ghost rest = before.stack_spec().drop_last();
        let ghost out = before.outcomes_spec();
        let ghost all = before.check_all;
        proof {
            assert(before.stack_spec().last() == FrameView::Visit(u, d));
            assert(before.stack_spec() =~= rest.push(FrameView::Visit(u, d)));
        }
        match fetched {
            Err(m) => {
                let o: Outcome = Err(StreamCheckError { url, details: m.clone() });
                self.settle_top(o);
                proof {
                    assert forall|web: Web| head_answer_is(web, u, fv) implies #[trigger] self.remaining(web) == before.remaining(web) by {
                        lemma_complete_top(web, all, out, rest, FrameView::Visit(u, d));
                        assert(out + resolve(web, u, all, d) =~= out.push(outcome_view(o)));
                    }
                }
            },
            Ok(h) => {
                let ghost hv = h@;
                match classify(h) {
                    Reaction::Failure(m) => {
                        let o: Outcome = Err(StreamCheckError { url, details: m });
                        self.settle_top(o);
                        proof {
                            assert forall|web: Web| head_answer_is(web, u, fv) implies #[trigger] self.remaining(web) == before.remaining(web) by {
                                lemma_complete_top(web, all, out, rest, FrameView::Visit(u, d));
                                assert(out + resolve(web, u, all, d) =~= out.push(outcome_view(o)));
                            }
                        }
                    },
                    Reaction::Stream(c) => {
                        let o: Outcome = Ok(stream_info(url.as_str(), h, c.as_str()));
                        self.settle_top(o);
                        proof {
                            assert forall|web: Web| head_answer_is(web, u, fv) implies #[trigger] self.remaining(web) == before.remaining(web) by {
                                lemma_complete_top(web, all, out, rest, FrameView::Visit(u, d));
                                assert(out + resolve(web, u, all, d) =~= out.push(outcome_view(o)));
                            }
                        }
                    },
                    Reaction::Redirect(loc) => {
                        if depth == 0 {
                            let o: Outcome = Err(StreamCheckError::new(url.as_str(), "max depth reached"));
                            self.settle_top(o);
                            proof {
                                assert forall|web: Web| head_answer_is(web, u, fv) implies #[trigger] self.remaining(web) == before.remaining(web) by {
                                    lemma_complete_top(web, all, out, rest, FrameView::Visit(u, d));
                                    assert(out + resolve(web, u, all, d) =~= out.push(outcome_view(o)));
                                }
                            }
                        } else {
                            let ghost lv = loc@;
                            self.replace_top(Frame::Visit { url: loc, depth: depth - 1 });
                            proof {
                                assert forall|web: Web| head_answer_is(web, u, fv) implies #[trigger] self.remaining(web) == before.remaining(web) by {
                                    lemma_complete_top(web, all, out, rest, FrameView::Visit(u, d));
                                    lemma_complete_top(web, all, out, rest, FrameView::Visit(lv, (d - 1) as nat));
                                }
                            }
                        }
                    },
                    Reaction::Playlist => {
                        self.replace_top(Frame::Body { url, depth });
                        proof {
                            assert forall|web: Web| head_answer_is(web, u, fv) implies #[trigger] self.remaining(web) == before.remaining(web) by {
                                lemma_complete_top(web, all, out, rest, FrameView::Visit(u, d));
                                lemma_complete_top(web, all, out, rest, FrameView::Body(u, d));
                            }
                        }
                    },
                }
            },
        }
    }

    /// Takes what the body of the awaited playlist shows: whether it is an
    /// HLS manifest, and the URLs that decoding it gave (or the decoding
    /// error).
    pub fn on_body(&mut self, hls: bool, listing: Result<Vec<String>, String>)
        requires
            old(self).wf(),
            old(self).awaits_body(),
        ensures
            final(self).wf(),
            final(self).all_spec() == old(self).all_spec(),
            old(self).stepped(
                *final(self),
                body_step(
                    old(self).current_url(),
                    old(self).current_depth(),
                    hls,
                    listing_view(listing),
                    old(self).outcomes_spec().len() as int,
                ),
            ),
            forall|web: Web| body_answer_is(web, old(self).current_url(), hls, listing_view(listing))
                ==> #[trigger] final(self).remaining(web) == old(self).remaining(web),
    {
        let ghost before = *self;
        let ghost lv = listing_view(listing);
        let n = self.stack.len();
        proof {
            lemma_frames_drop_last(self.stack@);
        }
        let (url, depth) = match &self.stack[n - 1] {
            Frame::Visit { url, depth } => (url.clone(), *depth),
            Frame::Body { url, depth } => (url.clone(), *depth),
            Frame::Listing { base, depth, .. } => (base.clone(), *depth),
        };
        let ghost u = url@;
        let ghost d = depth as nat;
        let ghost rest = before.stack_spec().drop_last();
        let ghost out = before.outcomes_spec();
        let ghost all = before.check_all;
        proof {
            assert(before.stack_spec().last() == FrameView::Body(u, d));
            assert(before.stack_spec() =~= rest.push(FrameView::Body(u, d)));
        }
        let base_error = match parse_url(url.as_str()) {
            Err(m) => Some(m),
            Ok(_) => None,
        };
        let o: Outcome = if hls {
            Ok(hls_info(url.as_str()))
        } else if let Some(m) = base_error {
            Err(StreamCheckError { url, details: m })
        } else {
            match listing {
                Err(m) => Err(StreamCheckError { url, details: m }),
                Ok(l) => {
                    let entries = playlist_entries(url.as_str(), &l);
                    let ghost es = entries_view(entries@);
                    if entries.len() == 0 {
                        Err(StreamCheckError::new(url.as_str(), "Empty playlist"))
                    } else if depth == 0 {
                        Err(StreamCheckError::new(url.as_str(), "max depth reached"))
                    } else {
                        let mark = self.outcomes.len();
                        let f = Frame::Listing { base: url, entries, next: 0, depth: depth - 1, mark };
                        let ghost fv = frame_view(f);
                        self.replace_top(f);
                        proof {
                            assert forall|web: Web| body_answer_is(web, u, hls, lv) implies #[trigger] self.remaining(web) == before.remaining(web) by {
                                lemma_complete_top(web, all, out, rest, FrameView::Body(u, d));
                                lemma_complete_top(web, all, out, rest, fv);
                                assert(out.subrange(mark as int, out.len() as int) =~= Seq::<OutcomeView>::empty());
                                assert(es.subrange(0, es.len() as int) =~= es);
                            }
                        }
                        return;
                    }
                },
            }
        };
        self.settle_top(o);
        proof {
            assert forall|web: Web| body_answer_is(web, u, hls, lv) implies #[trigger] self.remaining(web) == before.remaining(web) by {
                lemma_complete_top(web, all, out, rest, FrameView::Body(u, d));
                assert(out + body_outcomes(web, u, all, d) =~= out.push(outcome_view(o)));
            }
        }
    }

    /// Takes the text of the awaited playlist body: it is sniffed for HLS
    /// and decoded here. Decoding gives its URLs in no fixed order, so what
    /// is promised holds for the order it gave, one that fits the text.
    pub fn on_content(&mut self, content: &str)
        requires
            old(self).wf(),
            old(self).awaits_body(),
        ensures
            final(self).wf(),
            final(self).all_spec() == old(self).all_spec(),
            exists|l: Result<Seq<Seq<char>>, Seq<char>>|
                #[trigger] listing_fits(l, content@) && old(self).stepped(
                    *final(self),
                    body_step(
                        old(self).current_url(),
                        old(self).current_depth(),
                        is_hls_text(content@),
                        l,
                        old(self).outcomes_spec().len() as int,
                    ),
                ) && forall|web: Web|
                    body_answer_is(web, old(self).current_url(), is_hls_text(content@), l)
                        ==> #[trigger] final(self).remaining(web) == old(self).remaining(web),
    {
        let hls = is_content_hls(content);
        let listing = decode(content);
        let ghost l = listing_view(listing);
        proof {
            assert(listing_fits(l, content@));
        }
        self.on_body(hls, listing);
    }

    /// The outcomes so far; all of them once `next_action` says `Finished`.
    pub fn into_outcomes(self) -> (r: Vec<Outcome>)
        ensures
            outcomes_view(r@) == self.outcomes_spec(),
    {
        self.outcomes
    }
}

/// With no work pending, the outcomes so far are all the outcomes.
pub proof fn lemma_finished_is_complete(r: Resolver, web: Web)
    requires
        r.stack_spec().len() == 0,
    ensures
        r.remaining(web) == r.outcomes_spec(),
{
}

} // verus!

verus! {

/// A server that answers 2xx with a stream content type gives exactly one
/// outcome: the stream, at the URL that was reached.
pub proof fn lemma_stream_resolves(web: Web, url: Seq<char>, all: bool, depth: nat)
    requires
        web(url) matches Answer::Served { head, .. } && 200 <= head.code < 300 && head.headers.contains_key(
            "content-type"@,
        ) && content_class(head.headers["content-type"@]) is Stream,
    ensures
        resolve(web, url, all, depth).len() == 1,
        resolve(web, url, all, depth)[0] matches OutcomeView::Found(info) && info.url == url && !info.hls,
{
}

/// A redirect with a `location` is followed: the URL resolves as its
/// location does, with one hop less.
pub proof fn lemma_redirect_followed(web: Web, url: Seq<char>, all: bool, depth: nat)
    requires
        depth > 0,
        web(url) matches Answer::Served { head, .. } && 300 <= head.code < 400 && head.headers.contains_key(
            "location"@,
        ),
    ensures
        web(url) matches Answer::Served { head, .. } && resolve(web, url, all, depth) == resolve(
            web,
            head.headers["location"@],
            all,
            (depth - 1) as nat,
        ),
{
}

/// A chain of at least `n` redirects starts at `url`.
pub open spec fn redirect_chain(web: Web, url: Seq<char>, n: nat) -> bool
    decreases n,
{
    n == 0 || (web(url) matches Answer::Served { head, .. } && reaction(head) matches ReactionView::Redirect(loc)
        && redirect_chain(web, loc, (n - 1) as nat))
}

/// The URL reached from `url` after `n` redirects.
pub open spec fn redirect_target(web: Web, url: Seq<char>, n: nat) -> Seq<char>
    decreases n,
{
    if n == 0 {
        url
    } else {
        match web(url) {
            Answer::Served { head, .. } => match reaction(head) {
                ReactionView::Redirect(loc) => redirect_target(web, loc, (n - 1) as nat),
                _ => url,
            },
            _ => url,
        }
    }
}

/// A chain of `n` redirects within the depth limit that ends at a server
/// answering 2xx with a stream content type gives exactly one outcome: the
/// stream, at the final URL reached.
pub proof fn lemma_redirects_to_stream(web: Web, url: Seq<char>, all: bool, depth: nat, n: nat)
    requires
        n <= depth,
        redirect_chain(web, url, n),
        web(redirect_target(web, url, n)) matches Answer::Served { head, .. } && 200 <= head.code < 300
            && head.headers.contains_key("content-type"@) && content_class(head.headers["content-type"@]) is Stream,
    ensures
        resolve(web, url, all, depth).len() == 1,
        resolve(web, url, all, depth)[0] matches OutcomeView::Found(info) && info.url == redirect_target(web, url, n),
    decreases n,
{
    if n > 0 {
        if let Answer::Served { head, .. } = web(url) {
            if let ReactionView::Redirect(loc) = reaction(head) {
                lemma_redirects_to_stream(web, loc, all, (depth - 1) as nat, (n - 1) as nat);
            }
        }
    }
}

/// A redirect chain longer than the depth limit ends in one error that names
/// the depth; resolution always ends.
pub proof fn lemma_long_redirect_chain_fails(web: Web, url: Seq<char>, all: bool, depth: nat)
    requires
        redirect_chain(web, url, depth + 1),
    ensures
        resolve(web, url, all, depth).len() == 1,
        resolve(web, url, all, depth)[0] matches OutcomeView::Failed(_, m) && m == "max depth reached"@,
    decreases depth,
{
    if depth > 0 {
        if let Answer::Served { head, .. } = web(url) {
            if let ReactionView::Redirect(loc) = reaction(head) {
                lemma_long_redirect_chain_fails(web, loc, all, (depth - 1) as nat);
            }
        }
    }
}

proof fn lemma_blank_listing_has_no_entries(base: Seq<char>, l: Seq<Seq<char>>)
    requires
        forall|i: int| 0 <= i < l.len() ==> is_blank(#[trigger] l[i]),
    ensures
        entries_of(base, l).len() == 0,
    decreases l.len(),
{
    if l.len() > 0 {
        assert(l.last() == l[l.len() - 1]);
        lemma_blank_listing_has_no_entries(base, l.drop_last());
    }
}

/// A playlist (not HLS) whose decoded listing holds no usable URL resolves
/// to one error, "Empty playlist".
pub proof fn lemma_empty_playlist(web: Web, url: Seq<char>, all: bool, depth: nat)
    requires
        url_parse_of(url) is Ok,
        web(url) matches Answer::Served { head, hls, listing } && reaction(head) == ReactionView::Playlist && !hls
            && (listing matches Ok(l) && forall|i: int| 0 <= i < l.len() ==> is_blank(#[trigger] l[i])),
    ensures
        resolve(web, url, all, depth) == seq![OutcomeView::Failed(url, "Empty playlist"@)],
{
    if let Answer::Served { head, hls, listing } = web(url) {
        if let Ok(l) = listing {
            lemma_blank_listing_has_no_entries(url, l);
            assert(resolve(web, url, all, depth) == playlist_outcomes(web, url, hls, listing, all, depth));
        }
    }
}

} // verus!
