//! The server's side of the protocol as a step function: what to do for a
//! message that came in, and what to answer once the file system has done
//! its part. The caller owns the socket and the folder; it performs each
//! action and hands the outcome back as the next event.

use crate::bytes::rows;
use crate::names::{is_plain_name, plain_name};
use crate::protocol::{Message, MessageView};
use crate::store::{hash_by, proof_by, scheme_of, store_over, IntegrityStore, StoreView};
use vstd::prelude::*;

verus! {

/// What happened: a message came in, or the file system finished an action.
#[derive(Debug)]
pub enum ServerEvent {
    /// A message arrived.
    Received(Message),
    /// A write was tried. `saved` says whether it went through; `scan` is
    /// the contents of the folder's files after it, none where the folder
    /// could not be listed.
    Written { filename: String, data: Vec<u8>, saved: bool, scan: Option<Vec<Vec<u8>>> },
    /// A removal was tried. `removed` says whether a file was removed;
    /// `scan` is as for a write.
    Removed { filename: String, removed: bool, scan: Option<Vec<Vec<u8>>> },
    /// A read was tried: the file's contents, none where there is no such
    /// file.
    Loaded { filename: String, content: Option<Vec<u8>> },
}

/// A server event as plain values.
pub enum ServerEventView {
    Received(MessageView),
    Written { filename: Seq<char>, data: Seq<u8>, saved: bool, scan: Option<Seq<Seq<u8>>> },
    Removed { filename: Seq<char>, removed: bool, scan: Option<Seq<Seq<u8>>> },
    Loaded { filename: Seq<char>, content: Option<Seq<u8>> },
}

/// The contents of an optional folder listing.
pub open spec fn opt_rows(scan: Option<Vec<Vec<u8>>>) -> Option<Seq<Seq<u8>>> {
    match scan {
        Some(files) => Some(rows(files@)),
        None => None,
    }
}

impl View for ServerEvent {
    type V = ServerEventView;

    open spec fn view(&self) -> ServerEventView {
        match self {
            ServerEvent::Received(msg) => ServerEventView::Received(msg@),
            ServerEvent::Written { filename, data, saved, scan } => ServerEventView::Written {
                filename: filename@,
                data: data@,
                saved: *saved,
                scan: opt_rows(*scan),
            },
            ServerEvent::Removed { filename, removed, scan } => ServerEventView::Removed {
                filename: filename@,
                removed: *removed,
                scan: opt_rows(*scan),
            },
            ServerEvent::Loaded { filename, content } => ServerEventView::Loaded {
                filename: filename@,
                content: crate::bytes::opt_bytes(*content),
            },
        }
    }
}

/// What the caller is to do next.
#[derive(Debug)]
pub enum ServerAction {
    /// Write `data` to the file `filename`, creating or replacing it.
    Write { filename: String, data: Vec<u8> },
    /// Remove the file `filename`.
    Remove { filename: String },
    /// Read the file `filename`.
    Read { filename: String },
    /// Send the message back to the peer.
    Reply(Message),
    /// Send nothing; where a message is given, it was not one a server
    /// answers.
    Drop(Option<Message>),
}

/// A server action as plain values.
pub enum ServerActionView {
    Write { filename: Seq<char>, data: Seq<u8> },
    Remove { filename: Seq<char> },
    Read { filename: Seq<char> },
    Reply(MessageView),
    Drop(Option<MessageView>),
}

impl View for ServerAction {
    type V = ServerActionView;

    open spec fn view(&self) -> ServerActionView {
        match self {
            ServerAction::Write { filename, data } => ServerActionView::Write {
                filename: filename@,
                data: data@,
            },
            ServerAction::Remove { filename } => ServerActionView::Remove { filename: filename@ },
            ServerAction::Read { filename } => ServerActionView::Read { filename: filename@ },
            ServerAction::Reply(msg) => ServerActionView::Reply(msg@),
            ServerAction::Drop(msg) => ServerActionView::Drop(
                match msg {
                    Some(m) => Some(m@),
                    None => None,
                },
            ),
        }
    }
}

/// The store after a change of the folder: rebuilt over the listing, or
/// kept as it was where the folder could not be listed.
pub open spec fn store_after_scan(store: StoreView, scan: Option<Seq<Seq<u8>>>) -> StoreView {
    match scan {
        Some(files) => store_over(scheme_of(store), files),
        None => store,
    }
}

/// What a message asks the server to do. The file system is touched only
/// for a plain file name: under any other name no file can be, so an upload
/// is dropped, a request answered with "not found", and a removal with
/// "not deleted".
pub open spec fn request_action(msg: MessageView) -> ServerActionView {
    match msg {
        MessageView::FileUpload { filename, data } => if plain_name(filename) {
            ServerActionView::Write { filename, data }
        } else {
            ServerActionView::Drop(Some(msg))
        },
        MessageView::FileRequest { filename } => if plain_name(filename) {
            ServerActionView::Read { filename }
        } else {
            ServerActionView::Reply(MessageView::FileNotFound { filename })
        },
        MessageView::DeleteFileRequest { filename } => if plain_name(filename) {
            ServerActionView::Remove { filename }
        } else {
            ServerActionView::Reply(MessageView::DeleteFileAck { filename, deleted: false })
        },
        MessageView::Heartbeat => ServerActionView::Reply(MessageView::HeartbeatAck),
        _ => ServerActionView::Drop(Some(msg)),
    }
}

/// The store after an event. Only a write or a removal that went through
/// changes it; a message or a read never does.
pub open spec fn store_after(store: StoreView, event: ServerEventView) -> StoreView {
    match event {
        ServerEventView::Written { saved, scan, .. } => if saved {
            store_after_scan(store, scan)
        } else {
            store
        },
        ServerEventView::Removed { removed, scan, .. } => if removed {
            store_after_scan(store, scan)
        } else {
            store
        },
        _ => store,
    }
}

/// The action that answers an event. A write that went through is
/// acknowledged with the file's hash, one that did not is not answered; a
/// removal is acknowledged with its outcome; a read is answered with the
/// file and its proof against the current aggregate, or with "not found".
pub open spec fn action_for(store: StoreView, event: ServerEventView) -> ServerActionView {
    match event {
        ServerEventView::Received(msg) => request_action(msg),
        ServerEventView::Written { filename, data, saved, scan } => if saved {
            ServerActionView::Reply(
                MessageView::FileAck { filename, hash: hash_by(store_after(store, event), data) },
            )
        } else {
            ServerActionView::Drop(None)
        },
        ServerEventView::Removed { filename, removed, scan } => ServerActionView::Reply(
            MessageView::DeleteFileAck { filename, deleted: removed },
        ),
        ServerEventView::Loaded { filename, content } => match content {
            Some(data) => ServerActionView::Reply(
                MessageView::File { filename, data, proof: proof_by(store, data) },
            ),
            None => ServerActionView::Reply(MessageView::FileNotFound { filename }),
        },
    }
}

/// Sorts an incoming message: the file-system action it asks for, the
/// answer that needs none, or nothing for a message that a server does not
/// answer.
pub fn dispatch(msg: Message) -> (action: ServerAction)
    ensures
        action@ == request_action(msg@),
{
    match msg {
        Message::FileUpload { filename, data } => {
            if is_plain_name(filename.as_str()) {
                ServerAction::Write { filename, data }
            } else {
                ServerAction::Drop(Some(Message::FileUpload { filename, data }))
            }
        },
        Message::FileRequest { filename } => {
            if is_plain_name(filename.as_str()) {
                ServerAction::Read { filename }
            } else {
                ServerAction::Reply(Message::FileNotFound { filename })
            }
        },
        Message::DeleteFileRequest { filename } => {
            if is_plain_name(filename.as_str()) {
                ServerAction::Remove { filename }
            } else {
                ServerAction::Reply(Message::DeleteFileAck { filename, deleted: false })
            }
        },
        Message::Heartbeat => ServerAction::Reply(Message::HeartbeatAck),
        other => ServerAction::Drop(Some(other)),
    }
}

/// Brings the store up to date after a change of the folder: rebuilds it
/// over the listing, or keeps the last aggregate where there is none.
pub fn refresh(store: &mut IntegrityStore, scan: &Option<Vec<Vec<u8>>>)
    ensures
        final(store)@ == store_after_scan(old(store)@, opt_rows(*scan)),
{
    match scan {
        Some(files) => {
            store.rebuild(files);
        },
        None => {},
    }
}

/// After a file was written: updates the aggregate and acknowledges the
/// upload with the file's hash.
pub fn save_file(
    store: &mut IntegrityStore,
    filename: String,
    data: Vec<u8>,
    scan: &Option<Vec<Vec<u8>>>,
) -> (reply: Message)
    ensures
        final(store)@ == store_after_scan(old(store)@, opt_rows(*scan)),
        reply@ == (MessageView::FileAck {
            filename: filename@,
            hash: hash_by(final(store)@, data@),
        }),
{
    refresh(store, scan);
    let hash = store.file_hash(data.as_slice());
    Message::FileAck { filename, hash }
}

/// After a removal was tried: where a file was removed, updates the
/// aggregate; either way acknowledges with the outcome.
pub fn delete_file(
    store: &mut IntegrityStore,
    filename: String,
    removed: bool,
    scan: &Option<Vec<Vec<u8>>>,
) -> (reply: Message)
    ensures
        final(store)@ == if removed {
            store_after_scan(old(store)@, opt_rows(*scan))
        } else {
            old(store)@
        },
        reply@ == (MessageView::DeleteFileAck { filename: filename@, deleted: removed }),
{
    if removed {
        refresh(store, scan);
    }
    Message::DeleteFileAck { filename, deleted: removed }
}

/// After a read was tried: the file with its membership proof, or "not
/// found".
pub fn read_file(store: &IntegrityStore, filename: String, content: Option<Vec<u8>>) -> (reply:
    Message)
    ensures
        reply@ == match content {
            Some(data) => MessageView::File {
                filename: filename@,
                data: data@,
                proof: proof_by(store@, data@),
            },
            None => MessageView::FileNotFound { filename: filename@ },
        },
{
    match content {
        Some(data) => {
            let evidence = store.prove(data.as_slice());
            Message::File { filename, data, proof: evidence }
        },
        None => Message::FileNotFound { filename },
    }
}

/// One step of the server: takes an event, updates the store and says what
/// to do next. Every event is answered by exactly one action, and every
/// outcome of the file system by at most one reply.
pub fn server_step(store: &mut IntegrityStore, event: ServerEvent) -> (action: ServerAction)
    ensures
        final(store)@ == store_after(old(store)@, event@),
        action@ == action_for(old(store)@, event@),
{
    match event {
        ServerEvent::Received(msg) => dispatch(msg),
        ServerEvent::Written { filename, data, saved, scan } => {
            if saved {
                ServerAction::Reply(save_file(store, filename, data, &scan))
            } else {
                ServerAction::Drop(None)
            }
        },
        ServerEvent::Removed { filename, removed, scan } => {
            ServerAction::Reply(delete_file(store, filename, removed, &scan))
        },
        ServerEvent::Loaded { filename, content } => {
            ServerAction::Reply(read_file(store, filename, content))
        },
    }
}

} // verus!
