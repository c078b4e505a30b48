//! Which input streams a conversion keeps, how it renumbers them, and where
//! each packet goes.
use vstd::prelude::*;

verus! {

/// The kind of data a stream carries, as FFmpeg classifies it.
#[derive(Debug, Clone, Copy, PartialEq, Eq, Structural)]
pub enum MediaType {
    Unknown,
    Video,
    Audio,
    Data,
    Subtitle,
    Attachment,
}

/// What a conversion does with the packets of one input stream.
#[derive(Debug, Clone, Copy, PartialEq, Eq, Structural)]
pub enum PacketRoute {
    /// The stream is left out of the output.
    Drop,
    /// Packets are decoded and re-encoded into output stream `output`.
    Transcode { output: usize },
    /// Packets are copied unchanged into output stream `output`.
    Copy { output: usize },
}

/// Video is transcoded; audio and subtitles are copied; anything else is dropped.
pub open spec fn is_kept(m: MediaType) -> bool {
    m == MediaType::Video || m == MediaType::Audio || m == MediaType::Subtitle
}

/// How many of the first `i` streams are kept: the output index that a
/// kept stream `i` receives.
pub open spec fn kept_before(media: Seq<MediaType>, i: int) -> nat
    decreases i,
{
    if i <= 0 {
        0
    } else {
        kept_before(media, i - 1) + if is_kept(media[i - 1]) { 1nat } else { 0nat }
    }
}

/// The route of a stream of kind `m` that would become output stream `k`.
pub open spec fn route_for(m: MediaType, k: nat) -> PacketRoute {
    if m == MediaType::Video {
        PacketRoute::Transcode { output: k as usize }
    } else if m == MediaType::Audio || m == MediaType::Subtitle {
        PacketRoute::Copy { output: k as usize }
    } else {
        PacketRoute::Drop
    }
}

/// The routes of all input streams of the given kinds.
pub open spec fn planned_routes(media: Seq<MediaType>) -> Seq<PacketRoute> {
    Seq::new(media.len(), |i: int| route_for(media[i], kept_before(media, i)))
}

/// The output stream that a route leads to, if any.
pub open spec fn route_output(r: PacketRoute) -> Option<int> {
    match r {
        PacketRoute::Drop => None,
        PacketRoute::Transcode { output } => Some(output as int),
        PacketRoute::Copy { output } => Some(output as int),
    }
}

/// The routes of a conversion, one per input stream, in input order.
#[derive(Debug, Clone)]
pub struct StreamPlan {
    routes: Vec<PacketRoute>,
}

impl View for StreamPlan {
    type V = Seq<PacketRoute>;

    closed spec fn view(&self) -> Seq<PacketRoute> {
        self.routes@
    }
}

/// Builds the plan for input streams of the given kinds: kept streams are
/// numbered in input order from 0.
pub fn plan_streams(media: &Vec<MediaType>) -> (plan: StreamPlan)
    ensures
        plan@ == planned_routes(media@),
        plan@.len() == media@.len(),
        forall|i: int| 0 <= i < media@.len() ==> {
            &&& ((#[trigger] plan@[i]) is Transcode <==> media@[i] == MediaType::Video)
            &&& (plan@[i] is Copy <==> (media@[i] == MediaType::Audio || media@[i] == MediaType::Subtitle))
            &&& (plan@[i] is Drop <==> !(media@[i] == MediaType::Video || media@[i] == MediaType::Audio
                || media@[i] == MediaType::Subtitle))
        },
{
    let mut routes: Vec<PacketRoute> = Vec::new();
    let mut k: usize = 0;
    let mut i: usize = 0;
    while i < media.len()
        invariant
            i <= media@.len(),
            k == kept_before(media@, i as int),
            k <= i,
            routes@ =~= planned_routes(media@).take(i as int),
        decreases media@.len() - i,
    {
        let m = media[i];
        let route = if m == MediaType::Video {
            PacketRoute::Transcode { output: k }
        } else if m == MediaType::Audio || m == MediaType::Subtitle {
            PacketRoute::Copy { output: k }
        } else {
            PacketRoute::Drop
        };
        routes.push(route);
        if is_kept_exec(m) {
            k = k + 1;
        }
        i = i + 1;
    }
    assert(planned_routes(media@).take(media@.len() as int) =~= planned_routes(media@));
    proof {
        assert forall|i: int| 0 <= i < media@.len() implies {
            &&& (planned_routes(media@)[i] is Transcode <==> media@[i] == MediaType::Video)
            &&& (planned_routes(media@)[i] is Copy <==> (media@[i] == MediaType::Audio || media@[i] == MediaType::Subtitle))
            &&& (planned_routes(media@)[i] is Drop <==> !(media@[i] == MediaType::Video || media@[i] == MediaType::Audio
                || media@[i] == MediaType::Subtitle))
        } by {
            law_route_follows_kind(media@, i);
        }
    }
    StreamPlan { routes }
}

fn is_kept_exec(m: MediaType) -> (b: bool)
    ensures
        b == is_kept(m),
{
    m == MediaType::Video || m == MediaType::Audio || m == MediaType::Subtitle
}

impl StreamPlan {
    /// Number of input streams.
    pub fn len(&self) -> (n: usize)
        ensures
            n == self@.len(),
    {
        self.routes.len()
    }

    /// Where a packet of input stream `input` goes.
    pub fn route_packet(&self, input: usize) -> (r: PacketRoute)
        requires
            input < self@.len(),
        ensures
            r == self@[input as int],
    {
        self.routes[input]
    }

    /// The streams that have a transcoder, as pairs (input stream, output
    /// stream), in increasing input order: what a conversion flushes once all
    /// packets are read, each into its output stream.
    pub fn transcoders(&self) -> (v: Vec<(usize, usize)>)
        ensures
            forall|j: int| 0 <= j < v@.len() ==> v@[j].0 < self@.len()
                && self@[v@[j].0 as int] == (PacketRoute::Transcode { output: v@[j].1 }),
            forall|i: int| 0 <= i < self@.len() && self@[i] is Transcode ==> exists|j: int|
                0 <= j < v@.len() && (#[trigger] v@[j]).0 == i,
            forall|a: int, b: int| 0 <= a < b < v@.len() ==> v@[a].0 < v@[b].0,
    {
        let mut v: Vec<(usize, usize)> = Vec::new();
        let mut i: usize = 0;
        while i < self.routes.len()
            invariant
                i <= self@.len(),
                forall|j: int| 0 <= j < v@.len() ==> v@[j].0 < i
                    && self@[v@[j].0 as int] == (PacketRoute::Transcode { output: v@[j].1 }),
                forall|x: int| 0 <= x < i && self@[x] is Transcode ==> exists|j: int|
                    0 <= j < v@.len() && (#[trigger] v@[j]).0 == x,
                forall|a: int, b: int| 0 <= a < b < v@.len() ==> v@[a].0 < v@[b].0,
            decreases self@.len() - i,
        {
            let ghost before = v@;
            if let PacketRoute::Transcode { output } = self.routes[i] {
                v.push((i, output));
            }
            assert forall|x: int| 0 <= x < i + 1 && self@[x] is Transcode implies exists|j: int|
                0 <= j < v@.len() && (#[trigger] v@[j]).0 == x by {
                if x < i {
                    let k = choose|k: int| 0 <= k < before.len() && (#[trigger] before[k]).0 == x;
                    assert(v@[k] == before[k]);
                } else {
                    assert(v@[v@.len() - 1].0 == i);
                }
            }
            i = i + 1;
        }
        v
    }
}

proof fn lemma_kept_before_monotone(media: Seq<MediaType>, i: int, j: int)
    requires
        0 <= i <= j,
    ensures
        kept_before(media, i) <= kept_before(media, j),
        j <= media.len() ==> kept_before(media, j) <= j,
    decreases j,
{
    if j > 0 {
        if i < j {
            lemma_kept_before_monotone(media, i, j - 1);
        }
        lemma_kept_before_monotone(media, 0, j - 1);
    }
}

/// The number of output streams, which is the number of kept input streams.
pub open spec fn output_count(media: Seq<MediaType>) -> nat {
    kept_before(media, media.len() as int)
}

/// Kept streams keep their order: of two kept input streams, the earlier
/// one gets the smaller output index, so no two share one.
pub proof fn law_outputs_ordered(media: Seq<MediaType>, i: int, j: int)
    requires
        0 <= i < j < media.len(),
        is_kept(media[i]),
        is_kept(media[j]),
        media.len() <= usize::MAX,
    ensures
        route_output(planned_routes(media)[i]) matches Some(oi) && route_output(planned_routes(media)[j]) matches Some(oj) && oi < oj,
{
    lemma_kept_before_monotone(media, i + 1, j);
    lemma_kept_before_monotone(media, 0, j);
    lemma_kept_before_monotone(media, 0, media.len() as int);
    lemma_kept_before_monotone(media, j, media.len() as int);
}

/// A stream is dropped exactly when it is neither video, audio nor
/// subtitles; a kept stream's output index is below the number of output
/// streams, which is at most the number of input streams.
pub proof fn law_outputs_in_range(media: Seq<MediaType>, i: int)
    requires
        0 <= i < media.len(),
        media.len() <= usize::MAX,
    ensures
        (planned_routes(media)[i] is Drop) <==> !is_kept(media[i]),
        route_output(planned_routes(media)[i]) matches Some(o) ==> 0 <= o < output_count(media),
        output_count(media) <= media.len(),
{
    lemma_kept_before_monotone(media, i + 1, media.len() as int);
    lemma_kept_before_monotone(media, 0, i);
    lemma_kept_before_monotone(media, 0, media.len() as int);
}

/// Every output stream is fed: each index below the number of output
/// streams is the output of some kept input stream.
pub proof fn law_outputs_onto(media: Seq<MediaType>, o: int)
    requires
        0 <= o < output_count(media),
        media.len() <= usize::MAX,
    ensures
        exists|i: int| 0 <= i < media.len() && route_output(#[trigger] planned_routes(media)[i]) == Some(o),
{
    lemma_onto_prefix(media, o, media.len() as int);
}

proof fn lemma_onto_prefix(media: Seq<MediaType>, o: int, n: int)
    requires
        0 <= o < kept_before(media, n),
        n <= media.len(),
        media.len() <= usize::MAX,
    ensures
        exists|i: int| 0 <= i < n && route_output(#[trigger] planned_routes(media)[i]) == Some(o),
    decreases n,
{
    lemma_kept_before_monotone(media, 0, n - 1);
    if o < kept_before(media, n - 1) {
        lemma_onto_prefix(media, o, n - 1);
        let i = choose|i: int| 0 <= i < n - 1 && route_output(#[trigger] planned_routes(media)[i]) == Some(o);
    } else {
        lemma_kept_before_monotone(media, 0, media.len() as int);
        lemma_kept_before_monotone(media, n - 1, media.len() as int);
        assert(route_output(planned_routes(media)[n - 1]) == Some(o));
    }
}

/// Each stream's route depends on its own kind alone: it is transcoded
/// exactly when it is video, copied exactly when it is audio or subtitles,
/// and dropped otherwise; a kept stream's output is the number of kept
/// streams before it.
pub proof fn law_route_follows_kind(media: Seq<MediaType>, i: int)
    requires
        0 <= i < media.len(),
    ensures
        planned_routes(media)[i] is Transcode <==> media[i] == MediaType::Video,
        planned_routes(media)[i] is Copy <==> (media[i] == MediaType::Audio || media[i] == MediaType::Subtitle),
        planned_routes(media)[i] is Drop <==> !(media[i] == MediaType::Video || media[i] == MediaType::Audio
            || media[i] == MediaType::Subtitle),
        route_output(planned_routes(media)[i]) matches Some(o) ==> o as int == (kept_before(media, i) as usize) as int,
{
}

} // verus!
