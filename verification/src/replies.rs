//! What a client makes of a hosted authority's answers: a command's one
//! receipt, the receipts of an answer, and the projection that a connect
//! receipt's snapshot starts.

use crate::authority::model::{CommandReceipt, SyncPayload};
use crate::authority::projection::{projection_of, ClientProjection};
use crate::rng::decimal;
use crate::transport::WireResponse;
use vstd::prelude::*;

verus! {

/// An answer that was not the one a client waited for.
#[derive(Clone, Debug, PartialEq, Eq)]
pub enum ReplyError {
    /// A connect receipt came without a full snapshot.
    ExpectedSnapshot,
    /// One receipt was awaited and this many came.
    ReceiptCount(usize),
    /// Receipts were awaited and the answer, described, was another.
    UnexpectedResponse(String),
}

/// The name of an answer's variant.
pub open spec fn variant_name(response: WireResponse) -> Seq<char> {
    match response {
        WireResponse::Receipts(_) => "Receipts"@,
        WireResponse::Buffered { .. } => "Buffered"@,
        WireResponse::StaleSequence { .. } => "StaleSequence"@,
        WireResponse::SnapshotWritten { .. } => "SnapshotWritten"@,
        WireResponse::Summary(_) => "Summary"@,
        WireResponse::Ack => "Ack"@,
        WireResponse::Error { .. } => "Error"@,
    }
}

/// The derived text of a variant whose fields are a session and two
/// request sequences: the variant's name, then each field's name and
/// decimal value in braces.
pub open spec fn sequence_fields_text(name: Seq<char>, session: u128, received: u64, expected: u64) -> Seq<char> {
    name + " { session_id: "@ + decimal(session as nat) + ", received_sequence: "@ + decimal(received as nat)
        + ", expected_sequence: "@ + decimal(expected as nat) + " }"@
}

/// Describes an answer in words with std's `format!` and the derived
/// `Debug` of `WireResponse`. As std documents the derived text, it is the
/// variant's name, alone for a variant without fields, else followed by its
/// fields' names and `Debug` values in braces (an integer's `Debug` text is
/// its decimal digits). For the variants whose fields are all integers this
/// is stated in full; for the others only the name at the start is, as the
/// text of a string, a fingerprint or a summary is left unsaid here.
#[verifier::external_body]
fn describe_response(response: &WireResponse) -> (description: String)
    ensures
        variant_name(*response).is_prefix_of(description@),
        *response is Ack ==> description@ == "Ack"@,
        *response matches WireResponse::Buffered { session_id, received_sequence, expected_sequence }
            ==> description@ == sequence_fields_text("Buffered"@, session_id, received_sequence, expected_sequence),
        *response matches WireResponse::StaleSequence { session_id, received_sequence, expected_sequence }
            ==> description@ == sequence_fields_text(
            "StaleSequence"@,
            session_id,
            received_sequence,
            expected_sequence,
        ),
{
    format!("{response:?}")
}

/// Starts a client projection from a receipt's full snapshot.
pub fn projection_from_receipt(receipt: CommandReceipt) -> (result: Result<ClientProjection, ReplyError>)
    ensures
        match receipt.sync {
            Some(SyncPayload::Snapshot(snapshot)) => result matches Ok(projection) && projection@
                == projection_of(snapshot@),
            _ => result == Err::<ClientProjection, ReplyError>(ReplyError::ExpectedSnapshot),
        },
{
    match receipt.sync {
        Some(SyncPayload::Snapshot(snapshot)) => Ok(ClientProjection::from_snapshot(snapshot)),
        _ => Err(ReplyError::ExpectedSnapshot),
    }
}

/// The one receipt of an answer, or how many came instead.
pub fn single_receipt(receipts: Vec<CommandReceipt>) -> (result: Result<CommandReceipt, ReplyError>)
    ensures
        receipts@.len() == 1 ==> result == Ok::<CommandReceipt, ReplyError>(receipts@[0]),
        receipts@.len() != 1 ==> result == Err::<CommandReceipt, ReplyError>(
            ReplyError::ReceiptCount(receipts@.len() as usize),
        ),
{
    let mut receipts = receipts;
    if receipts.len() != 1 {
        return Err(ReplyError::ReceiptCount(receipts.len()));
    }
    Ok(receipts.remove(0))
}

/// The receipts of an answer that carries receipts.
pub fn expect_receipts(response: WireResponse) -> (result: Result<Vec<CommandReceipt>, ReplyError>)
    ensures
        match response {
            WireResponse::Receipts(receipts) => result == Ok::<Vec<CommandReceipt>, ReplyError>(receipts),
            WireResponse::Buffered { session_id, received_sequence, expected_sequence } => result matches Err(
                ReplyError::UnexpectedResponse(description),
            ) && description@ == sequence_fields_text(
                "Buffered"@,
                session_id,
                received_sequence,
                expected_sequence,
            ),
            WireResponse::StaleSequence { session_id, received_sequence, expected_sequence } => result matches Err(
                ReplyError::UnexpectedResponse(description),
            ) && description@ == sequence_fields_text(
                "StaleSequence"@,
                session_id,
                received_sequence,
                expected_sequence,
            ),
            _ => result matches Err(ReplyError::UnexpectedResponse(description)) && variant_name(
                response,
            ).is_prefix_of(description@) && (response is Ack ==> description@ == "Ack"@),
        },
{
    match response {
        WireResponse::Receipts(receipts) => Ok(receipts),
        other => Err(ReplyError::UnexpectedResponse(describe_response(&other))),
    }
}

} // verus!
