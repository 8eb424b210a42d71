//! Synchronisation with the audio server's graph: finding the playback
//! streams in its textual node listing and keeping count of the updates
//! pushed to them.
//!
//! The listing is line-oriented. A node block starts at a line whose first
//! word begins with `id` and which names the node interface; the second word
//! of that line, without trailing commas, is the node's id. The block runs
//! until the next line that starts a node block, but never further than
//! [`LOOKAHEAD`] lines counted from its header. A property line that merely
//! begins with `id` does not end it. A node is a playback stream if some
//! line of its block carries both the media-class key and the
//! playback-stream class.
//!
//! Nothing is remembered between cycles: every cycle starts from a fresh
//! listing.

use crate::text::{
    chars_of, contains, cut, find_second_word, line_spans, lines_of, occurs_in, second_word,
    skip_run, spans_within, starts_with, string_of, strip_trailing, stripped_len, trim_start,
    Span,
};
use vstd::prelude::*;
use vstd::string::StringExecFns;

verus! {

/// Number of lines, header included, that a node block spans at most.
pub const LOOKAHEAD: usize = 20;

/// One node of the audio graph, as found in a listing.
#[derive(Clone, Debug, PartialEq, Eq)]
pub struct AudioEndpoint {
    /// The node's id, as the audio server printed it.
    pub id: String,
    /// Whether the node is an audio playback stream.
    pub is_playback_stream: bool,
}

/// The mathematical value of an [`AudioEndpoint`].
pub ghost struct EndpointModel {
    pub id: Seq<char>,
    pub is_playback_stream: bool,
}

impl View for AudioEndpoint {
    type V = EndpointModel;

    open spec fn view(&self) -> EndpointModel {
        EndpointModel { id: self.id@, is_playback_stream: self.is_playback_stream }
    }
}

/// The word that opens the header of every object in a listing.
pub open spec fn id_keyword() -> Seq<char> {
    "id"@
}

/// The type marker of a graph node.
pub open spec fn node_marker() -> Seq<char> {
    "PipeWire:Interface:Node"@
}

/// The key of the media-class property.
pub open spec fn class_key() -> Seq<char> {
    "media.class"@
}

/// The media class of an audio playback stream.
pub open spec fn playback_class() -> Seq<char> {
    "Stream/Output/Audio"@
}

/// Whether the first word of `line` begins with the id keyword.
pub open spec fn is_id_line(line: Seq<char>) -> bool {
    id_keyword().is_prefix_of(trim_start(line))
}

/// Whether `line` starts a node block: its first word begins with the id
/// keyword and it carries the type marker of a graph node.
pub open spec fn is_block_start(line: Seq<char>) -> bool {
    is_id_line(line) && occurs_in(node_marker(), line)
}

/// Whether `line` is the header of a node block from which an id can be
/// read.
pub open spec fn is_node_header(line: Seq<char>) -> bool {
    is_block_start(line) && second_word(line) is Some
}

/// The id that a node header carries.
pub open spec fn node_id(line: Seq<char>) -> Seq<char> {
    strip_trailing(second_word(line).unwrap(), ',')
}

/// Whether `line` advertises the playback-stream media class.
pub open spec fn is_playback_line(line: Seq<char>) -> bool {
    occurs_in(class_key(), line) && occurs_in(playback_class(), line)
}

/// Whether the block of the header at `header` extends to line `j`: no line
/// after the header, up to and including `j`, starts a node block.
pub open spec fn block_reaches(lines: Seq<Seq<char>>, header: int, j: int) -> bool {
    forall|k: int| header < k <= j ==> !is_block_start(#[trigger] lines[k])
}

/// Whether the block of the header at `header` has a line that advertises
/// the playback-stream media class.
pub open spec fn block_has_playback(lines: Seq<Seq<char>>, header: int) -> bool {
    exists|j: int|
        header < j < lines.len() && j < header + LOOKAHEAD && is_playback_line(#[trigger] lines[j])
            && block_reaches(lines, header, j)
}

/// The endpoints whose headers stand among the first `upto` lines, in the
/// order of the listing.
pub open spec fn endpoints_in(lines: Seq<Seq<char>>, upto: int) -> Seq<EndpointModel>
    decreases upto,
{
    if upto <= 0 {
        Seq::empty()
    } else {
        let before = endpoints_in(lines, upto - 1);
        let line = lines[upto - 1];
        if is_node_header(line) {
            before.push(
                EndpointModel {
                    id: node_id(line),
                    is_playback_stream: block_has_playback(lines, upto - 1),
                },
            )
        } else {
            before
        }
    }
}

/// All endpoints of a listing, in its order.
pub open spec fn endpoints_of(listing: Seq<char>) -> Seq<EndpointModel> {
    let lines = lines_of(listing);
    endpoints_in(lines, lines.len() as int)
}

/// The ids of the playback streams among `endpoints`, in their order.
pub open spec fn playback_ids(endpoints: Seq<EndpointModel>) -> Seq<Seq<char>>
    decreases endpoints.len(),
{
    if endpoints.len() == 0 {
        Seq::empty()
    } else {
        let before = playback_ids(endpoints.drop_last());
        if endpoints.last().is_playback_stream {
            before.push(endpoints.last().id)
        } else {
            before
        }
    }
}

/// The values of a sequence of endpoints.
pub open spec fn models(endpoints: Seq<AudioEndpoint>) -> Seq<EndpointModel> {
    endpoints.map_values(|e: AudioEndpoint| e@)
}

/// The contents of a sequence of strings.
pub open spec fn texts(strings: Seq<String>) -> Seq<Seq<char>> {
    strings.map_values(|s: String| s@)
}

/// The number of successful outcomes.
pub open spec fn successes(outcomes: Seq<bool>) -> nat
    decreases outcomes.len(),
{
    if outcomes.len() == 0 {
        0
    } else {
        successes(outcomes.drop_last()) + if outcomes.last() {
            1nat
        } else {
            0nat
        }
    }
}

/// The ids to update in a cycle: the playback streams of the listing, in
/// its order, or none at all when no listing could be obtained.
pub open spec fn planned(listing: Option<Seq<char>>) -> Seq<Seq<char>> {
    match listing {
        Some(text) => playback_ids(endpoints_of(text)),
        None => Seq::empty(),
    }
}

/// No more updates succeed than were attempted.
pub proof fn lemma_successes_bounded(outcomes: Seq<bool>)
    ensures
        successes(outcomes) <= outcomes.len(),
    decreases outcomes.len(),
{
    if outcomes.len() > 0 {
        lemma_successes_bounded(outcomes.drop_last());
    }
}

/// If every update succeeded, all of them count.
pub proof fn lemma_all_succeed(outcomes: Seq<bool>)
    ensures
        (forall|i: int| 0 <= i < outcomes.len() ==> outcomes[i]) ==> successes(outcomes)
            == outcomes.len(),
    decreases outcomes.len(),
{
    if outcomes.len() > 0 {
        lemma_all_succeed(outcomes.drop_last());
    }
}

/// A cycle that has an outcome for each of its targets counts exactly as
/// many updates as the listing has playback streams if every update
/// succeeded, and counts none if no listing could be obtained.
pub proof fn lemma_cycle_count(listing: Option<Seq<char>>, outcomes: Seq<bool>)
    requires
        outcomes.len() == planned(listing).len(),
    ensures
        (forall|i: int| 0 <= i < outcomes.len() ==> outcomes[i]) ==> successes(outcomes)
            == planned(listing).len(),
        listing is None ==> successes(outcomes) == 0,
{
    lemma_all_succeed(outcomes);
}

/// A failed update takes nothing from the count of the others: the count
/// after one more outcome is the count before, plus one if it succeeded.
pub proof fn lemma_failure_isolated(outcomes: Seq<bool>, success: bool)
    ensures
        successes(outcomes.push(success)) == successes(outcomes) + if success {
            1nat
        } else {
            0nat
        },
{
    assert(outcomes.push(success).drop_last() =~= outcomes);
}

/// The property payload that sets the channel volumes of a node to the two
/// given values, each already written out as a decimal number.
pub open spec fn payload_of(left: Seq<char>, right: Seq<char>) -> Seq<char> {
    "{ \"channelVolumes\": ["@ + left + ", "@ + right + "] }"@
}

/// Builds the property payload that sets the channel volumes of a node.
/// `left` and `right` are the two gains, already written out as decimal
/// numbers.
pub fn channel_volumes_payload(left: &str, right: &str) -> (payload: String)
    ensures
        payload@ == payload_of(left@, right@),
{
    let mut payload = String::new();
    payload.append("{ \"channelVolumes\": [");
    payload.append(left);
    payload.append(", ");
    payload.append(right);
    payload.append("] }");
    assert(payload@ =~= payload_of(left@, right@));
    payload
}

/// The patterns that the scan looks for, as characters.
struct Markers {
    id: Vec<char>,
    node: Vec<char>,
    class_key: Vec<char>,
    playback: Vec<char>,
}

impl Markers {
    spec fn wf(&self) -> bool {
        &&& self.id@ == id_keyword()
        &&& self.node@ == node_marker()
        &&& self.class_key@ == class_key()
        &&& self.playback@ == playback_class()
    }

    fn new() -> (m: Self)
        ensures
            m.wf(),
    {
        Markers {
            id: chars_of("id"),
            node: chars_of("PipeWire:Interface:Node"),
            class_key: chars_of("media.class"),
            playback: chars_of("Stream/Output/Audio"),
        }
    }
}

/// Cuts the line that `span` marks out of `text`.
fn line_at<'a>(text: &'a [char], span: Span) -> (line: &'a [char])
    requires
        span.start <= span.end <= text@.len(),
    ensures
        line@ == text@.subrange(span.start as int, span.end as int),
{
    &text[span.start..span.end]
}

/// Tells whether the first word of `line` begins with `keyword`.
fn begins_with_word(line: &[char], keyword: &[char]) -> (b: bool)
    ensures
        b == keyword@.is_prefix_of(trim_start(line@)),
{
    assert(line@.skip(0) =~= line@);
    let from: usize = skip_run(line, 0, true);
    let rest = &line[from..line.len()];
    assert(rest@ =~= trim_start(line@));
    starts_with(rest, keyword)
}

/// Tells whether `line` starts a node block.
fn starts_block(line: &[char], m: &Markers) -> (b: bool)
    requires
        m.wf(),
    ensures
        b == is_block_start(line@),
{
    begins_with_word(line, m.id.as_slice()) && contains(line, m.node.as_slice())
}

/// Scans the block of the header at line `header` for a line that
/// advertises the playback-stream media class.
fn scan_block(text: &[char], spans: &Vec<Span>, header: usize, m: &Markers) -> (found: bool)
    requires
        m.wf(),
        header < spans@.len(),
        spans_within(spans@, text@.len()),
    ensures
        found == block_has_playback(cut(text@, spans@), header as int),
{
    let ghost lines = cut(text@, spans@);
    let room: usize = spans.len() - header;
    let mut found = false;
    let mut open = true;
    let mut k: usize = 1;
    while open && k < LOOKAHEAD && k < room
        invariant
            m.wf(),
            lines == cut(text@, spans@),
            spans_within(spans@, text@.len()),
            room == spans@.len() - header,
            spans@.len() <= usize::MAX,
            1 <= k <= LOOKAHEAD,
            k <= room,
            forall|q: int| header < q < header + k ==> !is_block_start(#[trigger] lines[q]),
            found == exists|q: int|
                header < q < header + k && is_playback_line(#[trigger] lines[q]),
            !open ==> k < room && is_block_start(lines[header + k]),
        decreases (if open { 1int } else { 0int }), LOOKAHEAD - k,
    {
        let line = line_at(text, spans[header + k]);
        assert(line@ == lines[header + k]);
        if starts_block(line, m) {
            open = false;
        } else {
            if contains(line, m.class_key.as_slice()) && contains(line, m.playback.as_slice()) {
                found = true;
            }
            k += 1;
        }
    }
    proof {
        if found {
            let q = choose|q: int|
                header < q < header + k && is_playback_line(#[trigger] lines[q]);
            assert(block_reaches(lines, header as int, q));
        }
        if block_has_playback(lines, header as int) {
            let j = choose|j: int|
                header < j < lines.len() && j < header + LOOKAHEAD && is_playback_line(
                    #[trigger] lines[j],
                ) && block_reaches(lines, header as int, j);
            if j >= header + k {
                assert(!is_block_start(lines[header + k]));
            }
        }
    }
    found
}

/// Reads the endpoint whose header is line `at`, if that line is one.
fn read_header(text: &[char], spans: &Vec<Span>, at: usize, m: &Markers) -> (endpoint: Option<
    AudioEndpoint,
>)
    requires
        m.wf(),
        at < spans@.len(),
        spans_within(spans@, text@.len()),
    ensures
        endpoint is Some <==> is_node_header(cut(text@, spans@)[at as int]),
        endpoint matches Some(e) ==> e@ == (EndpointModel {
            id: node_id(cut(text@, spans@)[at as int]),
            is_playback_stream: block_has_playback(cut(text@, spans@), at as int),
        }),
{
    let line = line_at(text, spans[at]);
    if !starts_block(line, m) {
        return None;
    }
    match find_second_word(line) {
        None => None,
        Some(w) => {
            let word = &line[w.start..w.end];
            let end: usize = stripped_len(word, ',');
            let id = string_of(&word[0..end]);
            let is_playback_stream = scan_block(text, spans, at, m);
            Some(AudioEndpoint { id, is_playback_stream })
        },
    }
}

/// Finds every node of a listing from whose header an id can be read, and
/// tells for each whether it is a playback stream.
pub fn scan_endpoints(listing: &str) -> (endpoints: Vec<AudioEndpoint>)
    ensures
        models(endpoints@) == endpoints_of(listing@),
{
    let text = chars_of(listing);
    let spans = line_spans(text.as_slice());
    let m = Markers::new();
    let ghost lines = lines_of(listing@);
    let mut endpoints: Vec<AudioEndpoint> = Vec::new();
    let mut i: usize = 0;
    assert(models(endpoints@) =~= endpoints_in(lines, 0));
    while i < spans.len()
        invariant
            m.wf(),
            text@ == listing@,
            lines == cut(text@, spans@),
            spans_within(spans@, text@.len()),
            i <= spans@.len(),
            models(endpoints@) == endpoints_in(lines, i as int),
        decreases spans@.len() - i,
    {
        let ghost before = endpoints@;
        match read_header(text.as_slice(), &spans, i, &m) {
            Some(e) => {
                endpoints.push(e);
                assert(models(endpoints@) =~= models(before).push(e@));
            },
            None => {},
        }
        i += 1;
    }
    endpoints
}

/// Picks the ids of the playback streams among `endpoints`.
pub fn playback_targets(endpoints: &Vec<AudioEndpoint>) -> (ids: Vec<String>)
    ensures
        texts(ids@) == playback_ids(models(endpoints@)),
{
    let mut ids: Vec<String> = Vec::new();
    let mut i: usize = 0;
    assert(models(endpoints@.take(0)) =~= Seq::empty());
    assert(texts(ids@) =~= Seq::empty());
    while i < endpoints.len()
        invariant
            i <= endpoints@.len(),
            texts(ids@) == playback_ids(models(endpoints@.take(i as int))),
        decreases endpoints@.len() - i,
    {
        let ghost before = ids@;
        assert(models(endpoints@.take(i + 1)).drop_last() =~= models(endpoints@.take(i as int)));
        if endpoints[i].is_playback_stream {
            let id = endpoints[i].id.clone();
            ids.push(id);
            assert(texts(ids@) =~= texts(before).push(id@));
        }
        i += 1;
    }
    assert(endpoints@.take(i as int) =~= endpoints@);
    ids
}

/// How far a cycle has come.
struct Progress {
    /// Number of targets that have their outcome.
    done: usize,
    /// Number of those whose update succeeded.
    updated: usize,
    /// The outcomes themselves, in order.
    history: Ghost<Seq<bool>>,
}

/// The bookkeeping of one apply cycle.
///
/// The caller obtains the listing, starts a cycle from it, and then, for as
/// long as [`ApplyCycle::next_target`] names a node, pushes the new channel
/// volumes to that node and reports with [`ApplyCycle::record`] whether the
/// update succeeded. A failed update is skipped; the cycle goes on with the
/// next node.
pub struct ApplyCycle {
    targets: Vec<String>,
    progress: Progress,
}

impl ApplyCycle {
    #[verifier::type_invariant]
    spec fn inv(self) -> bool {
        &&& self.progress.done == self.progress.history@.len()
        &&& self.progress.done <= self.targets@.len()
        &&& self.progress.updated == successes(self.progress.history@)
    }

    /// The ids of the nodes to update, in order.
    pub closed spec fn targets(&self) -> Seq<Seq<char>> {
        texts(self.targets@)
    }

    /// The outcomes reported so far, in order.
    pub closed spec fn outcomes(&self) -> Seq<bool> {
        self.progress.history@
    }

    /// Starts a cycle from the listing that the audio server returned, or
    /// from `None` if it could not be obtained.
    pub fn begin(listing: Option<&str>) -> (cycle: Self)
        ensures
            cycle.targets() == planned(
                match listing {
                    Some(text) => Some(text@),
                    None => None,
                },
            ),
            cycle.outcomes() == Seq::<bool>::empty(),
    {
        let targets = match listing {
            Some(text) => {
                let endpoints = scan_endpoints(text);
                playback_targets(&endpoints)
            },
            None => Vec::new(),
        };
        assert(listing is None ==> texts(targets@) =~= Seq::empty());
        ApplyCycle {
            targets,
            progress: Progress { done: 0, updated: 0, history: Ghost(Seq::empty()) },
        }
    }

    /// The id of the node to update next, or `None` once every target has
    /// its outcome.
    pub fn next_target(&self) -> (target: Option<String>)
        ensures
            self.outcomes().len() <= self.targets().len(),
            match target {
                Some(id) => self.outcomes().len() < self.targets().len() && id@
                    == self.targets()[self.outcomes().len() as int],
                None => self.outcomes().len() == self.targets().len(),
            },
    {
        proof {
            use_type_invariant(self);
        }
        let at: usize = self.progress.done;
        if at < self.targets.len() {
            Some(self.targets[at].clone())
        } else {
            None
        }
    }

    /// Reports the outcome of the update of the node that
    /// [`ApplyCycle::next_target`] named. Once every target has its outcome,
    /// further reports are ignored.
    pub fn record(&mut self, success: bool)
        ensures
            final(self).targets() == old(self).targets(),
            final(self).outcomes() == if old(self).outcomes().len() < old(self).targets().len() {
                old(self).outcomes().push(success)
            } else {
                old(self).outcomes()
            },
    {
        proof {
            use_type_invariant(&*self);
        }
        if self.progress.done < self.targets.len() {
            let ghost history = self.progress.history@.push(success);
            proof {
                lemma_failure_isolated(self.progress.history@, success);
                lemma_successes_bounded(self.progress.history@);
            }
            let updated: usize = if success {
                self.progress.updated + 1
            } else {
                self.progress.updated
            };
            self.progress = Progress {
                done: self.progress.done + 1,
                updated,
                history: Ghost(history),
            };
        }
    }

    /// The number of updates that succeeded so far.
    pub fn updated(&self) -> (count: usize)
        ensures
            count == successes(self.outcomes()),
    {
        proof {
            use_type_invariant(self);
        }
        self.progress.updated
    }
}

} // verus!
