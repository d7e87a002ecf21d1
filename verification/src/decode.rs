//! From the fields of one row to a typed record.
//!
//! A record is read from the first [`FIELD_COUNT`] fields of a row, each by
//! the grammar of its kind; what follows them is left unread. The fields are
//! read in order, and the first that is missing or invalid decides the error.

use crate::error::DecodeError;
use crate::text::{infer, infer_field, integer_field, read_integer_field, Inferred};
use crate::types::{
    duration_view, is_numeric, representable, status_view, LineView, MaybeNumber, NumericLiteral,
    Reading, RequestLogLine, Timestamp,
};
use vstd::prelude::*;

verus! {

/// The number of fields that make a record.
pub const FIELD_COUNT: usize = 24;

/// The kind of value that a field holds.
pub enum FieldKind {
    /// Any text.
    Text,
    /// A date and time.
    Instant,
    /// A number of seconds, or a placeholder.
    Duration,
    /// A status code of the load balancer.
    Status,
    /// A status code of the target, or a placeholder.
    TargetStatus,
    /// A number of bytes.
    ByteCount,
}

/// The kind of the field at each position of a row.
pub open spec fn field_kind(position: int) -> FieldKind {
    if position == 1 || position == 21 {
        FieldKind::Instant
    } else if 5 <= position <= 7 {
        FieldKind::Duration
    } else if position == 8 {
        FieldKind::Status
    } else if position == 9 {
        FieldKind::TargetStatus
    } else if position == 10 || position == 11 {
        FieldKind::ByteCount
    } else {
        FieldKind::Text
    }
}

/// The instant that a date and time in the relaxed RFC 3339 form denotes, as
/// seconds since 1970 and nanoseconds past the second; `None` for any other
/// text.
pub uninterp spec fn instant_of(text: Seq<char>) -> Option<(i64, u32)>;

/// Calls chrono's `FromStr` for `DateTime<FixedOffset>` and takes the
/// result's `timestamp()` and `timestamp_subsec_nanos()`. Nothing is claimed
/// of which texts are dates: the result is only given the name `instant_of`.
#[verifier::external_body]
fn parse_instant(text: &str) -> (res: Option<(i64, u32)>)
    ensures
        res == instant_of(text@),
{
    text.parse::<chrono::DateTime<chrono::FixedOffset>>().ok().map(
        |time| (time.timestamp(), time.timestamp_subsec_nanos()),
    )
}

/// The status code that a target-status field holds, if it holds one.
pub open spec fn status_number(s: Seq<char>) -> Option<u16> {
    match infer(s) {
        Inferred::Unsigned(n) => if n <= u16::MAX {
            Some(n as u16)
        } else {
            None
        },
        Inferred::Signed(n) => if 0 <= n <= u16::MAX {
            Some(n as u16)
        } else {
            None
        },
        _ => None,
    }
}

/// Whether `s` is a valid field of the given kind.
pub open spec fn field_is_valid(kind: FieldKind, s: Seq<char>) -> bool {
    match kind {
        FieldKind::Text => true,
        FieldKind::Instant => instant_of(s) matches Some((seconds, nanos)) && representable(
            seconds as int,
            nanos as int,
        ),
        FieldKind::Duration => is_numeric(infer(s)) || infer(s) is Text,
        FieldKind::Status => integer_field(s, u16::MAX as nat) is Some,
        FieldKind::TargetStatus => status_number(s) is Some || infer(s) is Text,
        FieldKind::ByteCount => integer_field(s, u64::MAX as nat) is Some,
    }
}

/// What is wrong at one position of a row, if anything.
pub open spec fn position_defect(fields: Seq<Seq<char>>, position: int) -> Option<DecodeError> {
    if position >= fields.len() {
        Some(DecodeError::WrongArity { found: fields.len() as usize })
    } else if field_is_valid(field_kind(position), fields[position]) {
        None
    } else if field_kind(position) is Instant {
        Some(DecodeError::BadTimestamp { field: position as usize })
    } else {
        Some(DecodeError::MalformedField { field: position as usize })
    }
}

/// The defect of the first position at or after `from` that has one.
pub open spec fn first_defect(fields: Seq<Seq<char>>, from: int) -> Option<DecodeError>
    decreases FIELD_COUNT - from,
{
    if from >= FIELD_COUNT {
        None
    } else if position_defect(fields, from) is Some {
        position_defect(fields, from)
    } else {
        first_defect(fields, from + 1)
    }
}

/// Whether a row can be decoded.
pub open spec fn is_well_formed(fields: Seq<Seq<char>>) -> bool {
    first_defect(fields, 0) is None
}

/// The instant that a valid date field denotes.
pub open spec fn instant_value(s: Seq<char>) -> (int, int) {
    (instant_of(s).unwrap().0 as int, instant_of(s).unwrap().1 as int)
}

/// What a valid duration field holds: the number as it is written, or the
/// text that stands in its place.
pub open spec fn duration_value(s: Seq<char>) -> Reading<Seq<char>> {
    if is_numeric(infer(s)) {
        Reading::Number(s)
    } else {
        Reading::Placeholder(s)
    }
}

/// What a valid target-status field holds.
pub open spec fn target_status_value(s: Seq<char>) -> Reading<u16> {
    match status_number(s) {
        Some(n) => Reading::Number(n),
        None => Reading::Placeholder(s),
    }
}

/// The record that the fields of a well-formed row denote.
pub open spec fn decoded(fields: Seq<Seq<char>>) -> LineView {
    LineView {
        request_type: fields[0],
        timestamp: instant_value(fields[1]),
        elb_name: fields[2],
        client: fields[3],
        target: fields[4],
        request_processing_time: duration_value(fields[5]),
        target_processing_time: duration_value(fields[6]),
        response_processing_time: duration_value(fields[7]),
        elb_status_code: integer_field(fields[8], u16::MAX as nat).unwrap() as u16,
        target_status_code: target_status_value(fields[9]),
        received_bytes: integer_field(fields[10], u64::MAX as nat).unwrap() as u64,
        sent_bytes: integer_field(fields[11], u64::MAX as nat).unwrap() as u64,
        request: fields[12],
        user_agent: fields[13],
        ssl_cipher: fields[14],
        ssl_protocol: fields[15],
        target_group_arn: fields[16],
        trace_id: fields[17],
        domain_name: fields[18],
        chosen_cert_arn: fields[19],
        matched_rule_priority: fields[20],
        request_creation_time: instant_value(fields[21]),
        actions_executed: fields[22],
        error_reason: fields[23],
    }
}

/// The texts of a row's fields.
pub open spec fn texts(fields: Seq<String>) -> Seq<Seq<char>> {
    fields.map_values(|field: String| field@)
}

fn text_at(fields: &Vec<String>, position: usize) -> (res: Result<String, DecodeError>)
    requires
        field_kind(position as int) is Text,
    ensures
        match res {
            Ok(text) => position_defect(texts(fields@), position as int) is None && text@
                == texts(fields@)[position as int],
            Err(error) => position_defect(texts(fields@), position as int) == Some(error),
        },
{
    if position >= fields.len() {
        return Err(DecodeError::WrongArity { found: fields.len() });
    }
    Ok(fields[position].clone())
}

fn integer_at(fields: &Vec<String>, position: usize, limit: u64) -> (res: Result<
    u64,
    DecodeError,
>)
    requires
        (field_kind(position as int) is Status && limit == u16::MAX) || (field_kind(
            position as int,
        ) is ByteCount && limit == u64::MAX),
    ensures
        match res {
            Ok(n) => position_defect(texts(fields@), position as int) is None && integer_field(
                texts(fields@)[position as int],
                limit as nat,
            ) == Some(n as nat),
            Err(error) => position_defect(texts(fields@), position as int) == Some(error),
        },
{
    if position >= fields.len() {
        return Err(DecodeError::WrongArity { found: fields.len() });
    }
    match read_integer_field(fields[position].as_str(), limit) {
        Some(n) => Ok(n),
        None => Err(DecodeError::MalformedField { field: position }),
    }
}

fn instant_at(fields: &Vec<String>, position: usize) -> (res: Result<Timestamp, DecodeError>)
    requires
        field_kind(position as int) is Instant,
    ensures
        match res {
            Ok(instant) => position_defect(texts(fields@), position as int) is None
                && instant@ == instant_value(texts(fields@)[position as int]),
            Err(error) => position_defect(texts(fields@), position as int) == Some(error),
        },
{
    if position >= fields.len() {
        return Err(DecodeError::WrongArity { found: fields.len() });
    }
    match parse_instant(fields[position].as_str()) {
        Some((seconds, nanos)) => match Timestamp::new(seconds, nanos) {
            Some(instant) => Ok(instant),
            None => Err(DecodeError::BadTimestamp { field: position }),
        },
        None => Err(DecodeError::BadTimestamp { field: position }),
    }
}

fn duration_at(fields: &Vec<String>, position: usize) -> (res: Result<
    MaybeNumber<NumericLiteral>,
    DecodeError,
>)
    requires
        field_kind(position as int) is Duration,
    ensures
        match res {
            Ok(value) => position_defect(texts(fields@), position as int) is None
                && duration_view(value) == duration_value(texts(fields@)[position as int]),
            Err(error) => position_defect(texts(fields@), position as int) == Some(error),
        },
{
    if position >= fields.len() {
        return Err(DecodeError::WrongArity { found: fields.len() });
    }
    let field = &fields[position];
    match NumericLiteral::parse(field.as_str()) {
        Some(number) => Ok(MaybeNumber::Number(number)),
        None => match infer_field(field.as_str()) {
            Inferred::Text => Ok(MaybeNumber::FailedToParse(field.clone())),
            _ => Err(DecodeError::MalformedField { field: position }),
        },
    }
}

fn target_status_at(fields: &Vec<String>, position: usize) -> (res: Result<
    MaybeNumber<u16>,
    DecodeError,
>)
    requires
        field_kind(position as int) is TargetStatus,
    ensures
        match res {
            Ok(value) => position_defect(texts(fields@), position as int) is None
                && status_view(value) == target_status_value(texts(fields@)[position as int]),
            Err(error) => position_defect(texts(fields@), position as int) == Some(error),
        },
{
    if position >= fields.len() {
        return Err(DecodeError::WrongArity { found: fields.len() });
    }
    let field = &fields[position];
    match infer_field(field.as_str()) {
        Inferred::Unsigned(n) => {
            if n <= 0xffff {
                Ok(MaybeNumber::Number(n as u16))
            } else {
                Err(DecodeError::MalformedField { field: position })
            }
        },
        Inferred::Signed(n) => {
            if 0 <= n && n <= 0xffff {
                Ok(MaybeNumber::Number(n as u16))
            } else {
                Err(DecodeError::MalformedField { field: position })
            }
        },
        Inferred::Text => Ok(MaybeNumber::FailedToParse(field.clone())),
        _ => Err(DecodeError::MalformedField { field: position }),
    }
}

/// Decodes the fields of one row.
pub fn decode_row(fields: &Vec<String>) -> (res: Result<RequestLogLine, DecodeError>)
    ensures
        match res {
            Ok(line) => is_well_formed(texts(fields@)) && line@ == decoded(texts(fields@)),
            Err(error) => first_defect(texts(fields@), 0) == Some(error),
        },
{
    reveal_with_fuel(first_defect, 25);
    let request_type = text_at(fields, 0)?;
    let timestamp = instant_at(fields, 1)?;
    let elb_name = text_at(fields, 2)?;
    let client = text_at(fields, 3)?;
    let target = text_at(fields, 4)?;
    let request_processing_time = duration_at(fields, 5)?;
    let target_processing_time = duration_at(fields, 6)?;
    let response_processing_time = duration_at(fields, 7)?;
    let elb_status_code = integer_at(fields, 8, 0xffff)?;
    let target_status_code = target_status_at(fields, 9)?;
    let received_bytes = integer_at(fields, 10, u64::MAX)?;
    let sent_bytes = integer_at(fields, 11, u64::MAX)?;
    let request = text_at(fields, 12)?;
    let user_agent = text_at(fields, 13)?;
    let ssl_cipher = text_at(fields, 14)?;
    let ssl_protocol = text_at(fields, 15)?;
    let target_group_arn = text_at(fields, 16)?;
    let trace_id = text_at(fields, 17)?;
    let domain_name = text_at(fields, 18)?;
    let chosen_cert_arn = text_at(fields, 19)?;
    let matched_rule_priority = text_at(fields, 20)?;
    let request_creation_time = instant_at(fields, 21)?;
    let actions_executed = text_at(fields, 22)?;
    let error_reason = text_at(fields, 23)?;
    Ok(
        RequestLogLine {
            request_type,
            timestamp,
            elb_name,
            client,
            target,
            request_processing_time,
            target_processing_time,
            response_processing_time,
            elb_status_code: elb_status_code as u16,
            target_status_code,
            received_bytes,
            sent_bytes,
            request,
            user_agent,
            ssl_cipher,
            ssl_protocol,
            target_group_arn,
            trace_id,
            domain_name,
            chosen_cert_arn,
            matched_rule_priority,
            request_creation_time,
            actions_executed,
            error_reason,
        },
    )
}

} // verus!
