//! The typed record of one access-log line, and the values its fields hold.

use crate::text::{
    chars_of, find_char, find_in, infer, infer_field, lemma_find_char_bounds, Inferred,
};
use vstd::prelude::*;
use vstd::string::StrSliceExecFns;

verus! {

/// A field that holds a number, or what stood in its place: the load balancer
/// writes `-` where a target could not be reached.
#[derive(Debug, Clone, PartialEq, Eq)]
pub enum MaybeNumber<T> {
    Number(T),
    FailedToParse(String),
}

/// Whether text of this kind stands for a number.
pub open spec fn is_numeric(kind: Inferred) -> bool {
    kind is Unsigned || kind is Signed || kind is Float
}

/// A number kept as the text it was written as: a duration in seconds with a
/// fraction, such as `0.001` or `-1`.
#[derive(Debug, PartialEq, Eq)]
pub struct NumericLiteral {
    text: String,
}

impl View for NumericLiteral {
    type V = Seq<char>;

    closed spec fn view(&self) -> Seq<char> {
        self.text@
    }
}

impl NumericLiteral {
    #[verifier::type_invariant]
    spec fn is_number(self) -> bool {
        is_numeric(infer(self.text@))
    }

    /// Takes `text` if it stands for a number.
    pub fn parse(text: &str) -> (res: Option<NumericLiteral>)
        ensures
            res is Some <==> is_numeric(infer(text@)),
            res matches Some(number) ==> number@ == text@,
    {
        match infer_field(text) {
            Inferred::Unsigned(_) | Inferred::Signed(_) | Inferred::Float => Some(
                NumericLiteral { text: text.to_owned() },
            ),
            _ => None,
        }
    }

    /// The number as it was written.
    pub fn as_str(&self) -> (text: &str)
        ensures
            text@ == self@,
            is_numeric(infer(text@)),
    {
        proof {
            use_type_invariant(self);
        }
        self.text.as_str()
    }
}

impl Clone for NumericLiteral {
    fn clone(&self) -> (res: Self)
        ensures
            res == *self,
    {
        proof {
            use_type_invariant(self);
        }
        NumericLiteral { text: self.text.clone() }
    }
}

/// The greatest number of seconds before or after 1970 that a [`Timestamp`]
/// holds; it leaves room to count the same instant in milliseconds.
pub const MAX_SECONDS: i64 = 9_000_000_000_000_000;

/// The number of nanoseconds below which a [`Timestamp`]'s fraction stays;
/// a leap second is written as a fraction of a second and more.
pub const NANOS_LIMIT: u32 = 2_000_000_000;

pub open spec fn representable(seconds: int, nanos: int) -> bool {
    -MAX_SECONDS <= seconds <= MAX_SECONDS && 0 <= nanos < NANOS_LIMIT
}

/// The instant in milliseconds since 1970.
pub open spec fn millis_of(seconds: int, nanos: int) -> int {
    seconds * 1000 + nanos / 1_000_000
}

/// An instant: whole seconds since 1970-01-01T00:00:00Z and the nanoseconds
/// past that second.
#[derive(Debug, Clone, Copy, PartialEq, Eq)]
pub struct Timestamp {
    seconds: i64,
    nanos: u32,
}

impl View for Timestamp {
    type V = (int, int);

    closed spec fn view(&self) -> (int, int) {
        (self.seconds as int, self.nanos as int)
    }
}

/// The date and time in UTC of an instant, in the RFC 3339 form with the
/// offset `+00:00`; `None` for an instant beyond the years that the calendar
/// in use can name.
pub uninterp spec fn rfc3339_of(seconds: int, nanos: int) -> Option<Seq<char>>;

/// Calls chrono's `DateTime::<Utc>::from_timestamp` and, on the date that it
/// gives, `DateTime::to_rfc3339`. Nothing is claimed of the text but its
/// name, `rfc3339_of`.
#[verifier::external_body]
fn format_rfc3339(seconds: i64, nanos: u32) -> (res: Option<String>)
    ensures
        res is Some <==> rfc3339_of(seconds as int, nanos as int) is Some,
        res matches Some(text) ==> rfc3339_of(seconds as int, nanos as int) == Some(text@),
{
    chrono::DateTime::from_timestamp(seconds, nanos).map(|time| time.to_rfc3339())
}

/// Whether the instant `a` is no later than the instant `b`.
pub open spec fn no_later(a: (int, int), b: (int, int)) -> bool {
    a.0 < b.0 || (a.0 == b.0 && a.1 <= b.1)
}

impl Timestamp {
    #[verifier::type_invariant]
    spec fn in_range(self) -> bool {
        representable(self.seconds as int, self.nanos as int)
    }

    /// The instant `seconds` and `nanos` after 1970, if it is representable.
    pub fn new(seconds: i64, nanos: u32) -> (res: Option<Timestamp>)
        ensures
            res is Some <==> representable(seconds as int, nanos as int),
            res matches Some(t) ==> t@ == (seconds as int, nanos as int),
    {
        if -MAX_SECONDS <= seconds && seconds <= MAX_SECONDS && nanos < NANOS_LIMIT {
            Some(Timestamp { seconds, nanos })
        } else {
            None
        }
    }

    pub fn seconds(&self) -> (seconds: i64)
        ensures
            seconds == self@.0,
            representable(self@.0, self@.1),
    {
        proof {
            use_type_invariant(self);
        }
        self.seconds
    }

    pub fn subsec_nanos(&self) -> (nanos: u32)
        ensures
            nanos == self@.1,
            representable(self@.0, self@.1),
    {
        proof {
            use_type_invariant(self);
        }
        self.nanos
    }

    /// The instant in milliseconds since 1970, the fraction cut off.
    pub fn timestamp_millis(&self) -> (millis: i64)
        ensures
            millis == millis_of(self@.0, self@.1),
    {
        proof {
            use_type_invariant(self);
        }
        self.seconds * 1000 + (self.nanos / 1_000_000) as i64
    }

    /// The instant as an RFC 3339 date in UTC, where the calendar reaches it.
    pub fn to_rfc3339(&self) -> (res: Option<String>)
        ensures
            res is Some <==> rfc3339_of(self@.0, self@.1) is Some,
            res matches Some(text) ==> rfc3339_of(self@.0, self@.1) == Some(text@),
    {
        format_rfc3339(self.seconds, self.nanos)
    }

    /// Whether this instant is no later than `other`.
    pub fn is_no_later_than(&self, other: &Timestamp) -> (res: bool)
        ensures
            res == no_later(self@, other@),
    {
        self.seconds < other.seconds || (self.seconds == other.seconds && self.nanos
            <= other.nanos)
    }
}

/// The three parts of a request descriptor.
#[derive(Debug, Clone, PartialEq, Eq)]
pub struct Request {
    pub method: String,
    pub path: String,
    pub http_version: String,
}

/// Where the second and the third part of a descriptor begin and where the
/// third ends, if `s` holds two spaces at least.
pub open spec fn request_bounds(s: Seq<char>) -> Option<(int, int, int)> {
    let first = find_char(s, ' ', 0);
    let second = find_char(s, ' ', first + 1);
    if first < s.len() && second < s.len() {
        Some((first, second, find_char(s, ' ', second + 1)))
    } else {
        None
    }
}

impl Request {
    /// Whether `self` holds the first three parts of `s`, split at each space.
    pub open spec fn splits(&self, s: Seq<char>) -> bool {
        match request_bounds(s) {
            Some((first, second, third)) => {
                &&& self.method@ == s.subrange(0, first)
                &&& self.path@ == s.subrange(first + 1, second)
                &&& self.http_version@ == s.subrange(second + 1, third)
            },
            None => false,
        }
    }

    /// Splits a descriptor of the form `METHOD PATH PROTOCOL` at its spaces.
    /// What follows a third space is left out; with fewer than three parts
    /// there is no request.
    pub fn parse(data: &str) -> (res: Option<Request>)
        ensures
            res is Some <==> request_bounds(data@) is Some,
            res matches Some(request) ==> request.splits(data@) && !request.method@.contains(' ')
                && !request.path@.contains(' ') && !request.http_version@.contains(' '),
    {
        let chars = chars_of(data);
        let first = find_in(&chars, ' ', 0);
        if first == chars.len() {
            return None;
        }
        let second = find_in(&chars, ' ', first + 1);
        if second == chars.len() {
            return None;
        }
        let third = find_in(&chars, ' ', second + 1);
        proof {
            lemma_find_char_bounds(data@, ' ', 0);
            lemma_find_char_bounds(data@, ' ', first + 1);
            lemma_find_char_bounds(data@, ' ', second + 1);
        }
        Some(
            Request {
                method: data.substring_char(0, first).to_owned(),
                path: data.substring_char(first + 1, second).to_owned(),
                http_version: data.substring_char(second + 1, third).to_owned(),
            },
        )
    }
}

/// What a [`MaybeNumber`] holds, as a mathematical value.
pub enum Reading<T> {
    Number(T),
    Placeholder(Seq<char>),
}

/// A record as a mathematical value: every text as its characters, every
/// instant as seconds and nanoseconds, every duration as it was written.
pub struct LineView {
    pub request_type: Seq<char>,
    pub timestamp: (int, int),
    pub elb_name: Seq<char>,
    pub client: Seq<char>,
    pub target: Seq<char>,
    pub request_processing_time: Reading<Seq<char>>,
    pub target_processing_time: Reading<Seq<char>>,
    pub response_processing_time: Reading<Seq<char>>,
    pub elb_status_code: u16,
    pub target_status_code: Reading<u16>,
    pub received_bytes: u64,
    pub sent_bytes: u64,
    pub request: Seq<char>,
    pub user_agent: Seq<char>,
    pub ssl_cipher: Seq<char>,
    pub ssl_protocol: Seq<char>,
    pub target_group_arn: Seq<char>,
    pub trace_id: Seq<char>,
    pub domain_name: Seq<char>,
    pub chosen_cert_arn: Seq<char>,
    pub matched_rule_priority: Seq<char>,
    pub request_creation_time: (int, int),
    pub actions_executed: Seq<char>,
    pub error_reason: Seq<char>,
}

pub open spec fn duration_view(value: MaybeNumber<NumericLiteral>) -> Reading<Seq<char>> {
    match value {
        MaybeNumber::Number(number) => Reading::Number(number@),
        MaybeNumber::FailedToParse(text) => Reading::Placeholder(text@),
    }
}

pub open spec fn status_view(value: MaybeNumber<u16>) -> Reading<u16> {
    match value {
        MaybeNumber::Number(number) => Reading::Number(number),
        MaybeNumber::FailedToParse(text) => Reading::Placeholder(text@),
    }
}

/// The three fields of a line that filter expressions can speak of.
#[derive(Debug, Clone, Copy, PartialEq, Eq)]
pub struct FieldValues<'a> {
    pub elb_status_code: i32,
    pub user_agent: &'a str,
    pub target_group_arn: &'a str,
}

/// One decoded line of an access log.
#[derive(Debug, PartialEq, Eq)]
pub struct RequestLogLine {
    pub request_type: String,
    pub timestamp: Timestamp,
    pub elb_name: String,
    pub client: String,
    pub target: String,
    pub request_processing_time: MaybeNumber<NumericLiteral>,
    pub target_processing_time: MaybeNumber<NumericLiteral>,
    pub response_processing_time: MaybeNumber<NumericLiteral>,
    pub elb_status_code: u16,
    pub target_status_code: MaybeNumber<u16>,
    pub received_bytes: u64,
    pub sent_bytes: u64,
    /// Method, URL and protocol version, as one text.
    pub request: String,
    pub user_agent: String,
    pub ssl_cipher: String,
    pub ssl_protocol: String,
    pub target_group_arn: String,
    pub trace_id: String,
    pub domain_name: String,
    pub chosen_cert_arn: String,
    pub matched_rule_priority: String,
    pub request_creation_time: Timestamp,
    pub actions_executed: String,
    pub error_reason: String,
}

impl View for RequestLogLine {
    type V = LineView;

    open spec fn view(&self) -> LineView {
        LineView {
            request_type: self.request_type@,
            timestamp: self.timestamp@,
            elb_name: self.elb_name@,
            client: self.client@,
            target: self.target@,
            request_processing_time: duration_view(self.request_processing_time),
            target_processing_time: duration_view(self.target_processing_time),
            response_processing_time: duration_view(self.response_processing_time),
            elb_status_code: self.elb_status_code,
            target_status_code: status_view(self.target_status_code),
            received_bytes: self.received_bytes,
            sent_bytes: self.sent_bytes,
            request: self.request@,
            user_agent: self.user_agent@,
            ssl_cipher: self.ssl_cipher@,
            ssl_protocol: self.ssl_protocol@,
            target_group_arn: self.target_group_arn@,
            trace_id: self.trace_id@,
            domain_name: self.domain_name@,
            chosen_cert_arn: self.chosen_cert_arn@,
            matched_rule_priority: self.matched_rule_priority@,
            request_creation_time: self.request_creation_time@,
            actions_executed: self.actions_executed@,
            error_reason: self.error_reason@,
        }
    }
}

fn clone_duration(value: &MaybeNumber<NumericLiteral>) -> (res: MaybeNumber<NumericLiteral>)
    ensures
        res == *value,
{
    match value {
        MaybeNumber::Number(number) => MaybeNumber::Number(number.clone()),
        MaybeNumber::FailedToParse(text) => MaybeNumber::FailedToParse(text.clone()),
    }
}

fn clone_status(value: &MaybeNumber<u16>) -> (res: MaybeNumber<u16>)
    ensures
        res == *value,
{
    match value {
        MaybeNumber::Number(number) => MaybeNumber::Number(*number),
        MaybeNumber::FailedToParse(text) => MaybeNumber::FailedToParse(text.clone()),
    }
}

impl Clone for RequestLogLine {
    fn clone(&self) -> (res: Self)
        ensures
            res == *self,
    {
        RequestLogLine {
            request_type: self.request_type.clone(),
            timestamp: self.timestamp,
            elb_name: self.elb_name.clone(),
            client: self.client.clone(),
            target: self.target.clone(),
            request_processing_time: clone_duration(&self.request_processing_time),
            target_processing_time: clone_duration(&self.target_processing_time),
            response_processing_time: clone_duration(&self.response_processing_time),
            elb_status_code: self.elb_status_code,
            target_status_code: clone_status(&self.target_status_code),
            received_bytes: self.received_bytes,
            sent_bytes: self.sent_bytes,
            request: self.request.clone(),
            user_agent: self.user_agent.clone(),
            ssl_cipher: self.ssl_cipher.clone(),
            ssl_protocol: self.ssl_protocol.clone(),
            target_group_arn: self.target_group_arn.clone(),
            trace_id: self.trace_id.clone(),
            domain_name: self.domain_name.clone(),
            chosen_cert_arn: self.chosen_cert_arn.clone(),
            matched_rule_priority: self.matched_rule_priority.clone(),
            request_creation_time: self.request_creation_time,
            actions_executed: self.actions_executed.clone(),
            error_reason: self.error_reason.clone(),
        }
    }
}

impl RequestLogLine {
    /// The request descriptor, split into method, path and protocol version.
    pub fn request(&self) -> (res: Option<Request>)
        ensures
            res is Some <==> request_bounds(self.request@) is Some,
            res matches Some(request) ==> request.splits(self.request@) && !request.method@.contains(
                ' ',
            ) && !request.path@.contains(' ') && !request.http_version@.contains(' '),
    {
        Request::parse(self.request.as_str())
    }

    /// The fields that filter expressions are evaluated on.
    pub fn execution_context(&self) -> (context: FieldValues<'_>)
        ensures
            context.elb_status_code == self.elb_status_code,
            context.user_agent@ == self.user_agent@,
            context.target_group_arn@ == self.target_group_arn@,
    {
        FieldValues {
            elb_status_code: self.elb_status_code as i32,
            user_agent: self.user_agent.as_str(),
            target_group_arn: self.target_group_arn.as_str(),
        }
    }
}

} // verus!
