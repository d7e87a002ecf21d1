//! The sink that appends matching lines to a log stream.

use crate::output::buffer::{lemma_views_empty, lemma_views_push, views, Batch};
use crate::output::{
    confirmed, offered, option_text, DeliveryRequest, LogEvent, Progress, Receipt, SinkView,
};
use crate::types::{millis_of, no_later, RequestLogLine};
use itertools::Itertools;
use vstd::prelude::*;
use vstd::string::StringExecFns;

verus! {

/// The number of events that one delivery takes.
pub const BUFFER_SIZE: usize = 10;

/// A sink that appends one event to a log stream for every line. The stream
/// is named by a prefix and a suffix of the sink's own, and is created with
/// the first delivery.
#[derive(Debug)]
pub struct CloudwatchLogOutput {
    pub group_name: String,
    pub stream_name_prefix: String,
    /// The lines that wait for delivery.
    pub batch: Batch,
    /// The token that the destination issued with the last batch it took.
    pub sequence_token: Option<String>,
    pub stream_name_suffix: String,
    /// Whether the stream has been created.
    pub stream_created: bool,
}

/// `Uuid::new_v4` and its `Display`: a random identifier as text. It differs
/// from call to call, so nothing is claimed of it. The call fails only where
/// the system has no random bytes to give.
#[verifier::external_body]
fn random_suffix() -> (suffix: String) {
    uuid::Uuid::new_v4().to_string()
}

/// A line's place in the delivery order: the seconds and nanoseconds of its
/// time, then its position in the buffer.
pub type SortKey = (i64, u32, usize);

/// The order of tuples: by the first part, then the second, then the third.
pub open spec fn key_le(a: SortKey, b: SortKey) -> bool {
    a.0 < b.0 || (a.0 == b.0 && (a.1 < b.1 || (a.1 == b.1 && a.2 <= b.2)))
}

/// itertools' `sorted_by_key` with each tuple as its own key: the same
/// tuples, in ascending order as the standard library orders tuples.
#[verifier::external_body]
fn sort_keys(keys: Vec<SortKey>) -> (sorted: Vec<SortKey>)
    ensures
        sorted@.to_multiset() == keys@.to_multiset(),
        forall|i: int, j: int|
            0 <= i < j < sorted@.len() ==> key_le(#[trigger] sorted@[i], #[trigger] sorted@[j]),
{
    keys.into_iter().sorted_by_key(|key| *key).collect()
}

/// Whether `order` lists the positions of `lines` by time, earliest first,
/// lines of the same time in the order in which they are held.
pub open spec fn is_time_ordering(order: Seq<int>, lines: Seq<RequestLogLine>) -> bool {
    &&& order.len() == lines.len()
    &&& forall|i: int| 0 <= i < order.len() ==> 0 <= #[trigger] order[i] < lines.len()
    &&& forall|i: int, j: int|
        0 <= i < j < order.len() ==> {
            &&& #[trigger] order[i] != #[trigger] order[j]
            &&& no_later(lines[order[i]].timestamp@, lines[order[j]].timestamp@)
            &&& lines[order[i]].timestamp@ == lines[order[j]].timestamp@ ==> order[i] < order[j]
        }
}

/// Whether `events` holds one event for every line, in the given order,
/// each with the line's time in milliseconds.
pub open spec fn follows_order(
    events: Seq<LogEvent>,
    order: Seq<int>,
    lines: Seq<RequestLogLine>,
) -> bool {
    &&& events.len() == order.len()
    &&& forall|i: int|
        0 <= i < events.len() ==> (#[trigger] events[i]).line == lines[order[i]] && events[i].timestamp
            == millis_of(events[i].line.timestamp@.0, events[i].line.timestamp@.1)
}

/// Whether `events` holds the lines sorted by time, those of equal time in
/// the order in which they are held.
pub open spec fn is_event_batch(events: Seq<LogEvent>, lines: Seq<RequestLogLine>) -> bool {
    exists|order: Seq<int>| #[trigger]
        is_time_ordering(order, lines) && follows_order(events, order, lines)
}

/// The positions that sorted keys name.
pub open spec fn positions(sorted: Seq<SortKey>) -> Seq<int> {
    Seq::new(sorted.len(), |i: int| sorted[i].2 as int)
}

/// Whether `keys` holds the key of every line.
pub open spec fn keys_of(keys: Seq<SortKey>, lines: Seq<RequestLogLine>) -> bool {
    &&& keys.len() == lines.len()
    &&& forall|j: int|
        0 <= j < keys.len() ==> (#[trigger] keys[j]).0 == lines[j].timestamp@.0 && keys[j].1
            == lines[j].timestamp@.1 && keys[j].2 == j
}

/// Sorting the keys of the lines gives the time order of the lines.
proof fn lemma_sorted_keys(keys: Seq<SortKey>, sorted: Seq<SortKey>, lines: Seq<RequestLogLine>)
    requires
        keys_of(keys, lines),
        sorted.to_multiset() == keys.to_multiset(),
        forall|i: int, j: int|
            0 <= i < j < sorted.len() ==> key_le(#[trigger] sorted[i], #[trigger] sorted[j]),
    ensures
        sorted.len() == lines.len(),
        forall|i: int|
            0 <= i < sorted.len() ==> (#[trigger] sorted[i]).2 < lines.len() && keys[sorted[i].2 as int]
                == sorted[i],
        is_time_ordering(positions(sorted), lines),
{
    keys.to_multiset_ensures();
    sorted.to_multiset_ensures();
    assert(keys.no_duplicates()) by {
        assert forall|i: int, j: int|
            0 <= i < keys.len() && 0 <= j < keys.len() && i != j implies keys[i] != keys[j] by {
            assert(keys[i].2 == i && keys[j].2 == j);
        }
    }
    keys.lemma_multiset_has_no_duplicates();
    sorted.lemma_multiset_has_no_duplicates_conv();
    assert forall|i: int| 0 <= i < sorted.len() implies (#[trigger] sorted[i]).2 < lines.len()
        && keys[sorted[i].2 as int] == sorted[i] by {
        assert(sorted.contains(sorted[i]));
        assert(keys.to_multiset().count(sorted[i]) > 0);
        assert(keys.contains(sorted[i]));
        let k = choose|k: int| 0 <= k < keys.len() && keys[k] == sorted[i];
        assert(keys[k].2 == k);
    }
    let order = positions(sorted);
    assert forall|i: int, j: int| 0 <= i < j < order.len() implies {
        &&& #[trigger] order[i] != #[trigger] order[j]
        &&& no_later(lines[order[i]].timestamp@, lines[order[j]].timestamp@)
        &&& lines[order[i]].timestamp@ == lines[order[j]].timestamp@ ==> order[i] < order[j]
    } by {
        assert(key_le(sorted[i], sorted[j]));
        assert(sorted[i] != sorted[j]);
        assert(keys[sorted[i].2 as int] == sorted[i]);
        assert(keys[sorted[j].2 as int] == sorted[j]);
    }
}

impl View for CloudwatchLogOutput {
    type V = SinkView;

    open spec fn view(&self) -> SinkView {
        SinkView {
            capacity: self.batch.capacity(),
            lines: views(self.batch.lines()),
            unprepared: !self.stream_created,
            sequenced: true,
            sequence_token: option_text(self.sequence_token),
        }
    }
}

impl CloudwatchLogOutput {
    /// The lines held, oldest first.
    pub open spec fn lines(&self) -> Seq<RequestLogLine> {
        self.batch.lines()
    }

    /// The name of the stream: the prefix, a hyphen, the suffix.
    pub open spec fn full_stream_name(&self) -> Seq<char> {
        self.stream_name_prefix@ + "-"@ + self.stream_name_suffix@
    }

    /// Whether `other` has the same destination and the same lines.
    pub open spec fn same_stream(&self, other: &CloudwatchLogOutput) -> bool {
        &&& self.group_name == other.group_name
        &&& self.stream_name_prefix == other.stream_name_prefix
        &&& self.stream_name_suffix == other.stream_name_suffix
    }

    /// Whether `request` creates this sink's stream.
    pub open spec fn creates(&self, request: DeliveryRequest) -> bool {
        &&& request matches DeliveryRequest::CreateLogStream { log_group_name, log_stream_name }
        &&& log_group_name@ == self.group_name@
        &&& log_stream_name@ == self.full_stream_name()
    }

    /// Whether `request` appends every line held to this sink's stream, the
    /// lines sorted by time.
    pub open spec fn puts(&self, request: DeliveryRequest) -> bool {
        &&& request matches DeliveryRequest::PutLogEvents {
            log_events,
            log_group_name,
            log_stream_name,
            sequence_token,
        }
        &&& log_group_name@ == self.group_name@
        &&& log_stream_name@ == self.full_stream_name()
        &&& option_text(sequence_token) == option_text(self.sequence_token)
        &&& is_event_batch(log_events@, self.lines())
    }

    /// What [`CloudwatchLogOutput::flush`] answers in this state.
    pub open spec fn flushes_with(&self, progress: Progress) -> bool {
        if self.lines().len() == 0 {
            progress is Done
        } else if !self.stream_created {
            progress matches Progress::Deliver(request) && self.creates(request)
        } else {
            progress matches Progress::Deliver(request) && self.puts(request)
        }
    }

    /// A sink for the stream named by `stream_name_prefix` and the given
    /// suffix, in the given group.
    pub fn with_suffix(
        group_name: String,
        stream_name_prefix: String,
        stream_name_suffix: String,
    ) -> (sink: CloudwatchLogOutput)
        ensures
            sink.group_name == group_name,
            sink.stream_name_prefix == stream_name_prefix,
            sink.stream_name_suffix == stream_name_suffix,
            sink.sequence_token is None,
            !sink.stream_created,
            sink@ == (SinkView {
                capacity: BUFFER_SIZE as nat,
                lines: Seq::empty(),
                unprepared: true,
                sequenced: true,
                sequence_token: None,
            }),
            sink.lines().len() == 0,
    {
        let batch = Batch::new(BUFFER_SIZE).unwrap();
        proof {
            lemma_views_empty(batch.lines());
        }
        CloudwatchLogOutput {
            group_name,
            stream_name_prefix,
            batch,
            sequence_token: None,
            stream_name_suffix,
            stream_created: false,
        }
    }

    /// A sink for a stream of its own in the given group: the suffix of the
    /// stream's name is drawn at random.
    pub fn new(group_name: String, stream_name_prefix: String) -> (sink: CloudwatchLogOutput)
        ensures
            sink.group_name == group_name,
            sink.stream_name_prefix == stream_name_prefix,
            sink.sequence_token is None,
            !sink.stream_created,
            sink@ == (SinkView {
                capacity: BUFFER_SIZE as nat,
                lines: Seq::empty(),
                unprepared: true,
                sequenced: true,
                sequence_token: None,
            }),
            sink.lines().len() == 0,
    {
        CloudwatchLogOutput::with_suffix(group_name, stream_name_prefix, random_suffix())
    }

    pub fn get_full_stream_name(&self) -> (name: String)
        ensures
            name@ == self.full_stream_name(),
    {
        self.stream_name_prefix.clone().concat("-").concat(self.stream_name_suffix.as_str())
    }

    /// The event of a line: a copy of it, with its time in milliseconds.
    pub fn process_log_line(&self, line: &RequestLogLine) -> (event: LogEvent)
        ensures
            event.line == *line,
            event.timestamp == millis_of(line.timestamp@.0, line.timestamp@.1),
    {
        LogEvent { line: line.clone(), timestamp: line.timestamp.timestamp_millis() }
    }

    /// The request that creates the stream, unless it has been created.
    pub fn ensure_stream_exists(&self) -> (res: Option<DeliveryRequest>)
        ensures
            res is None <==> self.stream_created,
            res matches Some(request) ==> self.creates(request),
    {
        if self.stream_created {
            return None;
        }
        Some(
            DeliveryRequest::CreateLogStream {
                log_group_name: self.group_name.clone(),
                log_stream_name: self.get_full_stream_name(),
            },
        )
    }

    /// The delivery of every line held, as events sorted by time.
    pub fn process_log_lines(&self) -> (request: DeliveryRequest)
        ensures
            self.puts(request),
    {
        let len = self.batch.buffer_len();
        let mut keys: Vec<SortKey> = Vec::new();
        let mut i: usize = 0;
        while i < len
            invariant
                i <= len,
                len == self.lines().len(),
                keys@.len() == i,
                forall|j: int|
                    0 <= j < i ==> (#[trigger] keys@[j]).0 == self.lines()[j].timestamp@.0
                        && keys@[j].1 == self.lines()[j].timestamp@.1 && keys@[j].2 == j,
            decreases len - i,
        {
            let line = self.batch.get(i);
            keys.push((line.timestamp.seconds(), line.timestamp.subsec_nanos(), i));
            i = i + 1;
        }
        let ghost unsorted = keys@;
        let sorted = sort_keys(keys);
        proof {
            lemma_sorted_keys(unsorted, sorted@, self.lines());
        }
        let ghost order = positions(sorted@);
        let mut log_events: Vec<LogEvent> = Vec::new();
        let mut k: usize = 0;
        while k < len
            invariant
                k <= len,
                len == self.lines().len(),
                sorted@.len() == len,
                order == positions(sorted@),
                forall|j: int| 0 <= j < sorted@.len() ==> (#[trigger] sorted@[j]).2 < len,
                log_events@.len() == k,
                forall|j: int|
                    0 <= j < k ==> (#[trigger] log_events@[j]).line == self.lines()[order[j]]
                        && log_events@[j].timestamp == millis_of(
                        log_events@[j].line.timestamp@.0,
                        log_events@[j].line.timestamp@.1,
                    ),
            decreases len - k,
        {
            let position = sorted[k].2;
            log_events.push(self.process_log_line(self.batch.get(position)));
            k = k + 1;
        }
        assert(follows_order(log_events@, order, self.lines()));
        let sequence_token = match &self.sequence_token {
            Some(token) => Some(token.clone()),
            None => None,
        };
        DeliveryRequest::PutLogEvents {
            log_events,
            log_group_name: self.group_name.clone(),
            log_stream_name: self.get_full_stream_name(),
            sequence_token,
        }
    }

    /// The delivery that has to be made next to empty the buffer, if it
    /// holds anything: the creation of the stream, then the events.
    pub fn flush(&self) -> (progress: Progress)
        ensures
            self.flushes_with(progress),
            self@.lines == views(self.lines()),
            progress is Done <==> self@.lines.len() == 0,
    {
        proof {
            lemma_views_empty(self.lines());
        }
        if self.batch.buffer_is_empty() {
            return Progress::Done;
        }
        match self.ensure_stream_exists() {
            Some(request) => Progress::Deliver(request),
            None => Progress::Deliver(self.process_log_lines()),
        }
    }

    /// Takes the line if there is room; else asks for the delivery that has
    /// to be made next, and takes nothing.
    pub fn process_line(&mut self, line: &RequestLogLine) -> (progress: Progress)
        ensures
            final(self).same_stream(old(self)),
            final(self).sequence_token == old(self).sequence_token,
            match offered(old(self)@, line@) {
                Some(after) => progress is Done && final(self)@ == after && final(self).lines()
                    == old(self).lines().push(*line),
                None => *final(self) == *old(self) && old(self).flushes_with(progress) && !(progress is Done),
            },
    {
        if self.batch.add_to_queue(line) {
            proof {
                lemma_views_push(old(self).lines(), *line);
            }
            Progress::Done
        } else {
            self.flush()
        }
    }

    /// Takes note that the delivery which [`CloudwatchLogOutput::flush`]
    /// asks for was made: the stream exists from then on; once events were
    /// taken, the buffer is empty and the token is the one that came back.
    pub fn delivered(&mut self, receipt: Receipt)
        ensures
            final(self).same_stream(old(self)),
            final(self)@ == confirmed(old(self)@, option_text(receipt.next_sequence_token)),
            final(self).sequence_token == if old(self).lines().len() > 0 && old(self).stream_created {
                receipt.next_sequence_token
            } else {
                old(self).sequence_token
            },
    {
        proof {
            lemma_views_empty(self.lines());
        }
        if self.batch.buffer_is_empty() {
            return ;
        }
        if !self.stream_created {
            self.stream_created = true;
            return ;
        }
        self.sequence_token = receipt.next_sequence_token;
        self.batch.buffer_clear();
        proof {
            lemma_views_empty(self.lines());
        }
    }
}

} // verus!
