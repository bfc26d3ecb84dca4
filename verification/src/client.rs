//! The client's side of the protocol: what to do with a message from the
//! server, given the aggregate that the client captured from its own files
//! before it uploaded them. A file that does not verify against that
//! aggregate is never handed on for saving.

use crate::protocol::{
    Aggregate,
    AggregateView,
    FileHash,
    FileHashView,
    MembershipProof,
    Message,
    MessageView,
};
use crate::names::{is_plain_name, plain_name};
use crate::store::accepts;
use vstd::prelude::*;

verus! {

/// What the caller is to do with a message from the server.
#[derive(Debug)]
pub enum ClientAction {
    /// The file verified: save `data` as `filename`.
    Save { filename: String, data: Vec<u8> },
    /// The file did not verify: its data is dropped, and only the name is
    /// left to report.
    Reject { filename: String },
    /// The server stored the upload and names its hash.
    Uploaded { filename: String, hash: FileHash },
    /// The server has no such file.
    Missing { filename: String },
    /// The server tried to delete the file, with this outcome.
    Deleted { filename: String, deleted: bool },
    /// The server is alive.
    Alive,
    /// Not a message that a client acts on.
    Unexpected(Message),
}

/// A client action as plain values.
pub enum ClientActionView {
    Save { filename: Seq<char>, data: Seq<u8> },
    Reject { filename: Seq<char> },
    Uploaded { filename: Seq<char>, hash: FileHashView },
    Missing { filename: Seq<char> },
    Deleted { filename: Seq<char>, deleted: bool },
    Alive,
    Unexpected(MessageView),
}

impl View for ClientAction {
    type V = ClientActionView;

    open spec fn view(&self) -> ClientActionView {
        match self {
            ClientAction::Save { filename, data } => ClientActionView::Save {
                filename: filename@,
                data: data@,
            },
            ClientAction::Reject { filename } => ClientActionView::Reject { filename: filename@ },
            ClientAction::Uploaded { filename, hash } => ClientActionView::Uploaded {
                filename: filename@,
                hash: hash@,
            },
            ClientAction::Missing { filename } => ClientActionView::Missing { filename: filename@ },
            ClientAction::Deleted { filename, deleted } => ClientActionView::Deleted {
                filename: filename@,
                deleted: *deleted,
            },
            ClientAction::Alive => ClientActionView::Alive,
            ClientAction::Unexpected(msg) => ClientActionView::Unexpected(msg@),
        }
    }
}

/// What becomes of a file that came with a proof: saved where its name is
/// a plain file name and the captured aggregate accepts it, rejected
/// otherwise.
pub open spec fn file_action(
    root: AggregateView,
    filename: Seq<char>,
    data: Seq<u8>,
    evidence: crate::protocol::MembershipProofView,
) -> ClientActionView {
    if plain_name(filename) && accepts(root, data, evidence) {
        ClientActionView::Save { filename, data }
    } else {
        ClientActionView::Reject { filename }
    }
}

/// The action that a message from the server calls for.
pub open spec fn reaction(root: AggregateView, msg: MessageView) -> ClientActionView {
    match msg {
        MessageView::File { filename, data, proof } => file_action(root, filename, data, proof),
        MessageView::FileAck { filename, hash } => ClientActionView::Uploaded { filename, hash },
        MessageView::FileNotFound { filename } => ClientActionView::Missing { filename },
        MessageView::DeleteFileAck { filename, deleted } => ClientActionView::Deleted {
            filename,
            deleted,
        },
        MessageView::HeartbeatAck => ClientActionView::Alive,
        _ => ClientActionView::Unexpected(msg),
    }
}

/// Checks a file that the server sent against the captured aggregate, and
/// hands it on for saving only if it verifies.
pub fn save_file(root: &Aggregate, filename: String, data: Vec<u8>, evidence: MembershipProof) -> (action:
    ClientAction)
    ensures
        action@ == file_action(root@, filename@, data@, evidence@),
        action is Save ==> accepts(root@, data@, evidence@),
{
    if is_plain_name(filename.as_str()) && root.verify(&data, &evidence) {
        ClientAction::Save { filename, data }
    } else {
        ClientAction::Reject { filename }
    }
}

/// One step of the client: the action for a message from the server. The
/// captured aggregate is read and never changed.
pub fn client_step(root: &Aggregate, msg: Message) -> (action: ClientAction)
    ensures
        action@ == reaction(root@, msg@),
        action matches ClientAction::Save { data, .. } ==> msg@ matches MessageView::File {
            data: sent,
            proof,
            ..
        } && sent == data@ && accepts(root@, sent, proof),
{
    match msg {
        Message::File { filename, data, proof: evidence } => save_file(
            root,
            filename,
            data,
            evidence,
        ),
        Message::FileAck { filename, hash } => ClientAction::Uploaded { filename, hash },
        Message::FileNotFound { filename } => ClientAction::Missing { filename },
        Message::DeleteFileAck { filename, deleted } => ClientAction::Deleted { filename, deleted },
        Message::HeartbeatAck => ClientAction::Alive,
        other => ClientAction::Unexpected(other),
    }
}

} // verus!
