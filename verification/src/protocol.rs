//! The messages that client and server exchange, and the values of the two
//! integrity schemes that they carry.

use crate::bromberg_hash::HashMatrixEx;
use crate::bytes::{opt_bytes, rows};
use vstd::prelude::*;

verus! {

/// The hash of one file under one of the two schemes.
#[derive(Clone, Debug, PartialEq, Eq)]
pub enum FileHash {
    /// The tree scheme: the hexadecimal text of the file's BLAKE3 digest.
    Tree(Vec<u8>),
    /// The additive scheme: the file's digest value.
    Algebraic(HashMatrixEx),
}

/// A file hash as plain values.
pub enum FileHashView {
    Tree(Seq<u8>),
    Algebraic(HashMatrixEx),
}

impl View for FileHash {
    type V = FileHashView;

    open spec fn view(&self) -> FileHashView {
        match self {
            FileHash::Tree(h) => FileHashView::Tree(h@),
            FileHash::Algebraic(h) => FileHashView::Algebraic(*h),
        }
    }
}

/// What shows that a file belongs to the set behind an aggregate.
#[derive(Clone, Debug, PartialEq, Eq)]
pub enum MembershipProof {
    /// The tree scheme: the sibling hashes from the leaf up.
    Tree(Vec<Vec<u8>>),
    /// The additive scheme: the digest of all the other files.
    Algebraic(HashMatrixEx),
}

/// A membership proof as plain values.
pub enum MembershipProofView {
    Tree(Seq<Seq<u8>>),
    Algebraic(HashMatrixEx),
}

impl View for MembershipProof {
    type V = MembershipProofView;

    open spec fn view(&self) -> MembershipProofView {
        match self {
            MembershipProof::Tree(path) => MembershipProofView::Tree(rows(path@)),
            MembershipProof::Algebraic(w) => MembershipProofView::Algebraic(*w),
        }
    }
}

/// The one value that stands for a whole set of files.
#[derive(Clone, Debug, PartialEq, Eq)]
pub enum Aggregate {
    /// The tree scheme: the root's hash, none for no files.
    Tree(Option<Vec<u8>>),
    /// The additive scheme: the digest of the files' hashes.
    Algebraic(HashMatrixEx),
}

/// An aggregate as plain values.
pub enum AggregateView {
    Tree(Option<Seq<u8>>),
    Algebraic(HashMatrixEx),
}

impl View for Aggregate {
    type V = AggregateView;

    open spec fn view(&self) -> AggregateView {
        match self {
            Aggregate::Tree(root) => AggregateView::Tree(opt_bytes(*root)),
            Aggregate::Algebraic(root) => AggregateView::Algebraic(*root),
        }
    }
}

/// A message between client and server.
#[derive(Clone, Debug, PartialEq, Eq)]
pub enum Message {
    FileUpload { filename: String, data: Vec<u8> },
    FileAck { filename: String, hash: FileHash },
    FileRequest { filename: String },
    File { filename: String, data: Vec<u8>, proof: MembershipProof },
    FileNotFound { filename: String },
    DeleteFileRequest { filename: String },
    DeleteFileAck { filename: String, deleted: bool },
    Heartbeat,
    HeartbeatAck,
}

/// A message as plain values.
pub enum MessageView {
    FileUpload { filename: Seq<char>, data: Seq<u8> },
    FileAck { filename: Seq<char>, hash: FileHashView },
    FileRequest { filename: Seq<char> },
    File { filename: Seq<char>, data: Seq<u8>, proof: MembershipProofView },
    FileNotFound { filename: Seq<char> },
    DeleteFileRequest { filename: Seq<char> },
    DeleteFileAck { filename: Seq<char>, deleted: bool },
    Heartbeat,
    HeartbeatAck,
}

impl View for Message {
    type V = MessageView;

    open spec fn view(&self) -> MessageView {
        match self {
            Message::FileUpload { filename, data } => MessageView::FileUpload {
                filename: filename@,
                data: data@,
            },
            Message::FileAck { filename, hash } => MessageView::FileAck {
                filename: filename@,
                hash: hash@,
            },
            Message::FileRequest { filename } => MessageView::FileRequest { filename: filename@ },
            Message::File { filename, data, proof } => MessageView::File {
                filename: filename@,
                data: data@,
                proof: proof@,
            },
            Message::FileNotFound { filename } => MessageView::FileNotFound { filename: filename@ },
            Message::DeleteFileRequest { filename } => MessageView::DeleteFileRequest {
                filename: filename@,
            },
            Message::DeleteFileAck { filename, deleted } => MessageView::DeleteFileAck {
                filename: filename@,
                deleted: *deleted,
            },
            Message::Heartbeat => MessageView::Heartbeat,
            Message::HeartbeatAck => MessageView::HeartbeatAck,
        }
    }
}

} // verus!
