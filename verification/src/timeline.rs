//! Undoable deletes: what was deleted, and the record of it that the
//! application keeps on its timeline.

use crate::text::same_text;
use base64::Engine;
use sicompass_sdk::ffon::FfonElement;
use sicompass_sdk::timeline::FsSideEffect as Snapshot;
use vstd::prelude::*;
use vstd::utf8::{encode_utf8, is_ascii_chars, is_ascii_chars_encode_utf8};

verus! {

/// The command of the record of a delete.
pub const OP_DELETE: &'static str = "delete";

/// The files and folders of a deleted folder, as the application's library keeps them.
#[verifier::external_type_specification]
#[verifier::external_body]
pub struct ExTrashedTree(sicompass_sdk::timeline::TrashedTree);

/// What a snapshot of a folder holds: for the folder itself, then for each file
/// and folder in it, in order, the names that lead to it and a file's content.
pub uninterp spec fn tree_contents(tree: sicompass_sdk::timeline::TrashedTree) -> Seq<
    (Seq<Seq<char>>, Option<Seq<u8>>),
>;

/// What a delete took away.
#[derive(Debug)]
pub enum FsSideEffect {
    /// There was nothing at the path.
    Nothing,
    /// A file, with its content.
    TrashedFile { original_path: String, content_snapshot: Vec<u8> },
    /// A folder, with all it held.
    TrashedDir {
        original_path: String,
        content_tree: sicompass_sdk::timeline::TrashedTree,
    },
    /// An item too large to keep: only the trash has it.
    RenameOnly { from: String, to: String },
}

/// What a delete took away, as values.
pub enum Deleted {
    Nothing,
    File { path: Seq<char>, content: Seq<u8> },
    Dir { path: Seq<char>, contents: Seq<(Seq<Seq<char>>, Option<Seq<u8>>)> },
    Moved { from: Seq<char>, to: Seq<char> },
}

impl View for FsSideEffect {
    type V = Deleted;

    open spec fn view(&self) -> Deleted {
        match *self {
            FsSideEffect::Nothing => Deleted::Nothing,
            FsSideEffect::TrashedFile { original_path, content_snapshot } => Deleted::File {
                path: original_path@,
                content: content_snapshot@,
            },
            FsSideEffect::TrashedDir { original_path, content_tree } => Deleted::Dir {
                path: original_path@,
                contents: tree_contents(content_tree),
            },
            FsSideEffect::RenameOnly { from, to } => Deleted::Moved { from: from@, to: to@ },
        }
    }
}

/// A record on the application's timeline.
#[derive(Debug)]
pub struct ProviderOp {
    pub command: String,
    pub payload: Vec<u8>,
    pub label: String,
}

/// The bytes into which `sicompass_sdk::fs_snapshot::encode` turns what was deleted.
pub uninterp spec fn snapshot_bytes(deleted: Deleted) -> Seq<u8>;

/// What `sicompass_sdk::fs_snapshot::decode` reads from bytes, if they are well formed.
pub uninterp spec fn snapshot_read(bytes: Seq<u8>) -> Option<Deleted>;

/// The text into which `base64` turns bytes, in its standard alphabet with padding.
pub uninterp spec fn base64_text(bytes: Seq<u8>) -> Seq<char>;

/// The bytes that `base64` reads from a text, if it is such a text.
pub uninterp spec fn base64_read(text: Seq<char>) -> Option<Seq<u8>>;

/// What `sicompass_pdk::decode_one` reads from a blob: nothing, a named list
/// (no text), or a line of text.
pub uninterp spec fn ffon_read(blob: Seq<u8>) -> Option<Option<Seq<char>>>;

/// The four bytes of `n`, the lowest first.
pub open spec fn le32(n: int) -> Seq<u8> {
    seq![
        (n % 256) as u8,
        (n / 256 % 256) as u8,
        (n / 65536 % 256) as u8,
        (n / 16777216 % 256) as u8,
    ]
}

/// A line of text as a blob: the outermost layer, the length, the text.
pub open spec fn ffon_line(text: Seq<char>) -> Seq<u8> {
    le32(0) + le32(encode_utf8(text).len() as int) + encode_utf8(text)
}

/// The number whose four bytes stand at `at`, the lowest first.
pub open spec fn le32_at(bytes: Seq<u8>, at: int) -> int {
    bytes[at] + 256 * bytes[at + 1] + 65536 * bytes[at + 2] + 16777216 * bytes[at + 3]
}

/// The elements of a blob from `at` on lie at places that a `usize` can
/// number: each starts with its layer and its length, and the last may be cut.
pub open spec fn places_fit(blob: Seq<u8>, at: int) -> bool
    decreases blob.len() - at,
{
    if at < 0 || at + 8 > blob.len() {
        true
    } else {
        let end = at + 8 + le32_at(blob, at + 4);
        end <= usize::MAX && (end <= blob.len() ==> places_fit(blob, end))
    }
}

/// A line that its blob gives back: its length fits the four bytes it has
/// there, and it does not end in the colon that marks a named list.
pub open spec fn survives_as_line(text: Seq<char>) -> bool {
    encode_utf8(text).len() < 0x1_0000_0000 && (text.len() > 0 ==> text.last() != ':')
}

/// How many bytes the files and folders of a tree take up in a snapshot: nine
/// for each, eight more and the name for each but the first, and a file's content.
pub open spec fn tree_size(contents: Seq<(Seq<Seq<char>>, Option<Seq<u8>>)>) -> nat
    decreases contents.len(),
{
    if contents.len() == 0 {
        0
    } else {
        let (names, content) = contents.last();
        tree_size(contents.drop_last()) + 9 + (if names.len() == 0 {
            0
        } else {
            8 + encode_utf8(names.last()).len()
        }) + match content {
            Some(bytes) => bytes.len(),
            None => 0,
        }
    }
}

/// How many bytes a snapshot has: one for its kind, and each path and content
/// with eight for its length.
pub open spec fn snapshot_size(deleted: Deleted) -> nat {
    match deleted {
        Deleted::Nothing => 1,
        Deleted::File { path, content } => 17 + encode_utf8(path).len() + content.len(),
        Deleted::Dir { path, contents } => 9 + encode_utf8(path).len() + tree_size(contents),
        Deleted::Moved { from, to } => 17 + encode_utf8(from).len() + encode_utf8(to).len(),
    }
}

/// The bytes of a snapshot, from `sicompass_sdk::fs_snapshot::encode`.
///
/// Taken on trust: they depend on what was deleted alone, and there are as many
/// as paths, names and contents take up.
#[verifier::external_body]
fn snapshot_encode(side_effect: &FsSideEffect) -> (r: Vec<u8>)
    ensures
        r@ == snapshot_bytes(side_effect@),
        r@.len() == snapshot_size(side_effect@),
{
    sicompass_sdk::fs_snapshot::encode(&match side_effect {
        FsSideEffect::Nothing => Snapshot::None,
        FsSideEffect::TrashedFile { original_path, content_snapshot } =>
            Snapshot::TrashedFile { original_path: original_path.into(), content_snapshot: content_snapshot.clone() },
        FsSideEffect::TrashedDir { original_path, content_tree } =>
            Snapshot::TrashedDir { original_path: original_path.into(), content_tree: content_tree.clone() },
        FsSideEffect::RenameOnly { from, to } => Snapshot::RenameOnly { from: from.into(), to: to.into() },
    })
}

/// The snapshot that bytes hold, from `sicompass_sdk::fs_snapshot::decode`.
///
/// Taken on trust: it depends on the bytes alone, and from the bytes of a
/// snapshot it reads that snapshot. How deep a tree of folders the stack can
/// hold while it is read is not stated.
#[verifier::external_body]
fn snapshot_decode(bytes: &[u8]) -> (r: Option<FsSideEffect>)
    ensures
        match r {
            Some(FsSideEffect::TrashedDir { original_path, content_tree }) => snapshot_read(bytes@)
                == Some(
                Deleted::Dir { path: original_path@, contents: tree_contents(content_tree) },
            ),
            Some(side_effect) => snapshot_read(bytes@) == Some(side_effect@),
            None => snapshot_read(bytes@) is None,
        },
        forall|side_effect: FsSideEffect|
            bytes@ == #[trigger] snapshot_bytes(side_effect@) ==> r is Some && r->0@
                == side_effect@,
{
    sicompass_sdk::fs_snapshot::decode(bytes).map(|snapshot| match snapshot {
        Snapshot::None => FsSideEffect::Nothing,
        Snapshot::TrashedFile { original_path, content_snapshot } =>
            FsSideEffect::TrashedFile { original_path: original_path.to_string_lossy().into_owned(), content_snapshot },
        Snapshot::TrashedDir { original_path, content_tree } =>
            FsSideEffect::TrashedDir { original_path: original_path.to_string_lossy().into_owned(), content_tree },
        Snapshot::RenameOnly { from, to } =>
            FsSideEffect::RenameOnly { from: from.to_string_lossy().into_owned(), to: to.to_string_lossy().into_owned() },
    })
}

/// Bytes as text, from `base64`'s standard engine.
///
/// Taken on trust: the text depends on the bytes alone, has four characters for
/// every three bytes begun, and they are letters, digits, `+`, `/` and `=`.
#[verifier::external_body]
fn base64_encode(bytes: &[u8]) -> (r: String)
    ensures
        r@ == base64_text(bytes@),
        r@.len() == (bytes@.len() + 2) / 3 * 4,
        forall|i: int| 0 <= i < r@.len() ==> is_base64_char(#[trigger] r@[i]),
{
    base64::engine::general_purpose::STANDARD.encode(bytes)
}

/// The bytes that a text stands for, from `base64`'s standard engine.
///
/// Taken on trust: they depend on the text alone, and the text of some bytes
/// stands for those bytes.
#[verifier::external_body]
fn base64_decode(text: &str) -> (r: Option<Vec<u8>>)
    ensures
        match r {
            Some(bytes) => base64_read(text@) == Some(bytes@),
            None => base64_read(text@) is None,
        },
        forall|bytes: Seq<u8>|
            text@ == #[trigger] base64_text(bytes) ==> r is Some && r->0@ == bytes,
{
    base64::engine::general_purpose::STANDARD.decode(text).ok()
}

/// A line of text as a blob, from `sicompass_pdk::encode_one`.
///
/// Taken on trust: four zero bytes for the outermost layer, the length of the
/// text in bytes, the text.
#[verifier::external_body]
fn ffon_encode(text: String) -> (r: Vec<u8>)
    ensures
        r@ == ffon_line(text@),
{
    sicompass_pdk::encode_one(&FfonElement::Str(text))
}

/// The first element of a blob, from `sicompass_pdk::decode_one`: none, a named
/// list, or a line with its text.
///
/// Taken on trust: it depends on the blob alone, and from the blob of a line it
/// reads the line, if the length fits and the line does not end in a colon.
/// A blob whose lengths lead past the last `usize` is not for it.
#[verifier::external_body]
fn ffon_decode(blob: &[u8]) -> (r: Option<Option<String>>)
    requires
        places_fit(blob@, 0),
    ensures
        match r {
            Some(Some(text)) => ffon_read(blob@) == Some(Some(text@)),
            Some(None) => ffon_read(blob@) == Some(None::<Seq<char>>),
            None => ffon_read(blob@) is None,
        },
        forall|text: Seq<char>|
            survives_as_line(text) && blob@ == #[trigger] ffon_line(text) ==> r is Some && r->0
                is Some && r->0->0@ == text,
{
    match sicompass_pdk::decode_one(blob) {
        Some(FfonElement::Str(text)) => Some(Some(text)),
        Some(FfonElement::Obj(_)) => Some(None),
        None => None,
    }
}

/// A character of base64 text.
pub open spec fn is_base64_char(c: char) -> bool {
    'A' <= c <= 'Z' || 'a' <= c <= 'z' || '0' <= c <= '9' || c == '+' || c == '/' || c == '='
}

/// The payload of the record of a delete.
pub open spec fn payload_of(deleted: Deleted) -> Seq<u8> {
    ffon_line(base64_text(snapshot_bytes(deleted)))
}

/// What was deleted according to a record: nothing if it is no record of a
/// delete, or if its payload is not well formed.
pub open spec fn recorded_delete(command: Seq<char>, payload: Seq<u8>) -> Option<Deleted> {
    if command != OP_DELETE@ || !places_fit(payload, 0) {
        None
    } else {
        match ffon_read(payload) {
            Some(Some(text)) => match base64_read(text) {
                Some(bytes) => snapshot_read(bytes),
                None => None,
            },
            _ => None,
        }
    }
}

/// The record is not of a delete, or its payload can be read here.
pub open spec fn is_readable(entry: ProviderOp) -> bool {
    entry.command@ == OP_DELETE@ ==> places_fit(entry.payload@, 0)
}

/// `entry` is a sound record of this delete.
pub open spec fn records(entry: ProviderOp, deleted: Deleted) -> bool {
    &&& is_readable(entry)
    &&& entry.command@ == OP_DELETE@
    &&& entry.payload@ == payload_of(deleted)
    &&& survives_as_line(base64_text(snapshot_bytes(deleted)))
}

/// A snapshot small enough for the length in its record: its text has less than 2^32 characters.
pub open spec fn fits_record(deleted: Deleted) -> bool {
    (snapshot_size(deleted) + 2) / 3 * 4 < 0x1_0000_0000
}

/// Writing a number as four bytes and reading it gives it back.
proof fn le32_reads_back(n: int, rest: Seq<u8>)
    requires
        0 <= n < 0x1_0000_0000,
    ensures
        le32_at(le32(0) + le32(n) + rest, 4) == n,
{
    let bytes = le32(0) + le32(n) + rest;
    assert(bytes[4] == le32(n)[0] && bytes[5] == le32(n)[1] && bytes[6] == le32(n)[2] && bytes[7]
        == le32(n)[3]);
    assert(n % 256 + 256 * (n / 256 % 256) + 65536 * (n / 65536 % 256) + 16777216 * (n / 16777216
        % 256) == n);
}

/// The payload of the record of a delete.
pub fn encode_side_effect(side_effect: &FsSideEffect) -> (r: Vec<u8>)
    ensures
        r@ == payload_of(side_effect@),
        r@ == ffon_line(base64_text(snapshot_bytes(side_effect@))),
        r@.len() < 0x1_0000_0008 ==> places_fit(r@, 0) && survives_as_line(
            base64_text(snapshot_bytes(side_effect@)),
        ),
        r@.len() == 8 + (snapshot_size(side_effect@) + 2) / 3 * 4,
        fits_record(side_effect@) ==> places_fit(r@, 0) && survives_as_line(
            base64_text(snapshot_bytes(side_effect@)),
        ),
{
    let text = base64_encode(snapshot_encode(side_effect).as_slice());
    proof {
        assert(is_ascii_chars(text@)) by {
            assert forall|i: int| 0 <= i < text@.len() implies '\0' <= #[trigger] text@[i]
                <= '\u{7f}' by {
                assert(is_base64_char(text@[i]));
            }
        }
        is_ascii_chars_encode_utf8(text@);
        if text@.len() > 0 {
            assert(is_base64_char(text@.last()));
        }
    }
    let blob = ffon_encode(text);
    proof {
        let line = encode_utf8(text@);
        if line.len() < 0x1_0000_0000 {
            le32_reads_back(line.len() as int, line);
            assert(blob.len() == 8 + line.len());
            assert(places_fit(blob@, blob@.len() as int));
            assert(places_fit(blob@, 0));
        }
    }
    blob
}

/// Whether the elements of a blob lie at places that a `usize` can number.
pub fn has_places(blob: &[u8]) -> (r: bool)
    ensures
        r == places_fit(blob@, 0),
{
    let mut at: usize = 0;
    while blob.len() - at >= 8
        invariant
            at <= blob@.len(),
            places_fit(blob@, at as int) == places_fit(blob@, 0),
        decreases blob@.len() - at,
    {
        let length: u32 = blob[at + 4] as u32 + 256 * blob[at + 5] as u32 + 65536 * blob[at + 6]
            as u32 + 16777216 * blob[at + 7] as u32;
        if length as u64 > (usize::MAX - at - 8) as u64 {
            return false;
        }
        if length as usize > blob.len() - at - 8 {
            return true;
        }
        at = at + 8 + length as usize;
    }
    true
}

/// What was deleted according to a record, `None` for a record that is not of a delete.
pub fn decode_side_effect(entry: &ProviderOp) -> (r: Option<FsSideEffect>)
    ensures
        match r {
            Some(side_effect) => recorded_delete(entry.command@, entry.payload@) == Some(
                side_effect@,
            ),
            None => recorded_delete(entry.command@, entry.payload@) is None,
        },
        !is_readable(*entry) ==> r is None,
        entry.command@ != "delete"@ ==> r is None,
        forall|side_effect: FsSideEffect| #[trigger]
            records(*entry, side_effect@) ==> r is Some && r->0@ == side_effect@,
        forall|side_effect: FsSideEffect|
            entry.command@ == "delete"@ && places_fit(entry.payload@, 0) && survives_as_line(
                base64_text(snapshot_bytes(side_effect@)),
            ) && entry.payload@ == ffon_line(
                base64_text(#[trigger] snapshot_bytes(side_effect@)),
            ) ==> r is Some && is_same(side_effect, r->0),
{
    if !same_text(entry.command.as_str(), OP_DELETE) || !has_places(entry.payload.as_slice()) {
        return None;
    }
    let text = match ffon_decode(entry.payload.as_slice()) {
        Some(Some(text)) => text,
        _ => {
            return None;
        },
    };
    match base64_decode(text.as_str()) {
        Some(bytes) => snapshot_decode(bytes.as_slice()),
        None => None,
    }
}

/// Two deletes took away the same: the same kind of item, from the same path,
/// with the same content.
pub open spec fn is_same(a: FsSideEffect, b: FsSideEffect) -> bool {
    match (a, b) {
        (FsSideEffect::Nothing, FsSideEffect::Nothing) => true,
        (
            FsSideEffect::TrashedFile { original_path, content_snapshot },
            FsSideEffect::TrashedFile { original_path: path, content_snapshot: content },
        ) => original_path@ == path@ && content_snapshot@ == content@,
        (
            FsSideEffect::TrashedDir { original_path, content_tree },
            FsSideEffect::TrashedDir { original_path: path, content_tree: tree },
        ) => original_path@ == path@ && tree_contents(content_tree) == tree_contents(tree),
        (
            FsSideEffect::RenameOnly { from, to },
            FsSideEffect::RenameOnly { from: old_from, to: old_to },
        ) => from@ == old_from@ && to@ == old_to@,
        _ => false,
    }
}

/// Deletes that look the same took away the same.
pub proof fn same_view_is_same(a: FsSideEffect, b: FsSideEffect)
    ensures
        a@ == b@ <==> is_same(a, b),
        a@ == b@ ==> match a {
            FsSideEffect::Nothing => b is Nothing,
            FsSideEffect::TrashedFile { original_path, content_snapshot } => b
                is TrashedFile && b->TrashedFile_original_path@ == original_path@
                && b->content_snapshot@ == content_snapshot@,
            FsSideEffect::TrashedDir { original_path, content_tree } => b is TrashedDir
                && b->TrashedDir_original_path@ == original_path@ && tree_contents(b->content_tree)
                == tree_contents(content_tree),
            FsSideEffect::RenameOnly { from, to } => b is RenameOnly && b->from@ == from@
                && b->to@ == to@,
        },
{
}

/// The path of a delete is where the file or the folder was, or where a moved
/// item came from, whatever it held. A delete that found nothing has none.
pub proof fn every_delete_has_its_path(side_effect: FsSideEffect)
    ensures
        match side_effect {
            FsSideEffect::TrashedFile { original_path, content_snapshot } => path_of(
                side_effect@,
            ) == Some(original_path@),
            FsSideEffect::TrashedDir { original_path, content_tree } => path_of(side_effect@)
                == Some(original_path@),
            FsSideEffect::RenameOnly { from, to } => path_of(side_effect@) == Some(from@),
            FsSideEffect::Nothing => path_of(side_effect@) is None,
        },
{
}

/// A record of a delete is one that says so and whose payload is the line with the
/// text of the snapshot; no more is asked of it than that it can be read.
pub proof fn records_hold_the_snapshot(entry: ProviderOp, deleted: Deleted)
    ensures
        records(entry, deleted) <==> entry.command@ == "delete"@ && places_fit(
            entry.payload@,
            0,
        ) && entry.payload@ == ffon_line(base64_text(snapshot_bytes(deleted))) && survives_as_line(
            base64_text(snapshot_bytes(deleted)),
        ),
{
}

/// The path of what was deleted.
pub open spec fn path_of(deleted: Deleted) -> Option<Seq<char>> {
    match deleted {
        Deleted::Nothing => None,
        Deleted::File { path, .. } => Some(path),
        Deleted::Dir { path, .. } => Some(path),
        Deleted::Moved { from, .. } => Some(from),
    }
}

/// The path of what was deleted, absolute and recorded at the time.
pub fn deleted_path(side_effect: &FsSideEffect) -> (r: Option<&str>)
    ensures
        match r {
            Some(path) => path_of(side_effect@) == Some(path@),
            None => path_of(side_effect@) is None,
        },
        match *side_effect {
            FsSideEffect::TrashedFile { original_path, .. } => r is Some && r->0@
                == original_path@,
            FsSideEffect::TrashedDir { original_path, .. } => r is Some && r->0@
                == original_path@,
            FsSideEffect::RenameOnly { from, .. } => r is Some && r->0@ == from@,
            FsSideEffect::Nothing => r is None,
        },
{
    match side_effect {
        FsSideEffect::TrashedFile { original_path, .. } => Some(original_path.as_str()),
        FsSideEffect::TrashedDir { original_path, .. } => Some(original_path.as_str()),
        FsSideEffect::RenameOnly { from, .. } => Some(from.as_str()),
        FsSideEffect::Nothing => None,
    }
}

/// A blob that is not within four gigabytes of the largest there can be has its
/// elements at places that can be numbered, whatever it holds.
pub proof fn short_blobs_have_places(blob: Seq<u8>, at: int)
    requires
        blob.len() + 0x1_0000_0008 <= usize::MAX,
    ensures
        places_fit(blob, at),
    decreases blob.len() - at,
{
    if 0 <= at && at + 8 <= blob.len() {
        let end = at + 8 + le32_at(blob, at + 4);
        if end <= blob.len() {
            short_blobs_have_places(blob, end);
        }
    }
}

/// What a record tells is read in three steps, and each that fails leaves nothing:
/// a line from the payload, bytes from the line, and what was deleted from the bytes.
pub proof fn records_are_read_in_steps(
    command: Seq<char>,
    payload: Seq<u8>,
    text: Seq<char>,
    bytes: Seq<u8>,
)
    ensures
        command != "delete"@ ==> recorded_delete(command, payload) is None,
        !places_fit(payload, 0) ==> recorded_delete(command, payload) is None,
        ffon_read(payload) is None ==> recorded_delete(command, payload) is None,
        ffon_read(payload) is Some && ffon_read(payload)->0 is None ==> recorded_delete(
            command,
            payload,
        ) is None,
        ffon_read(payload) == Some(Some(text)) && base64_read(text) is None ==> recorded_delete(
            command,
            payload,
        ) is None,
        command == "delete"@ && places_fit(payload, 0) && ffon_read(payload) == Some(Some(text))
            && base64_read(text) == Some(bytes) ==> recorded_delete(command, payload)
            == snapshot_read(bytes),
{
}

}
