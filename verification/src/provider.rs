//! The file browser itself: where it is, what it shows, and what it does with
//! the user's edits and commands. The disk and the desktop are touched by the
//! application; here it is decided how.

use crate::copy::CopyItem;
use crate::desktop::HostDesktop;
use crate::element::{Element, I_PLACEHOLDER};
use crate::entry::RawEntry;
use crate::listing::SortMode;
use crate::markup::{
    display_text, entry_name, has_tag, in_field, occurs_at, reads_as, shown_name, strip_display,
    INPUT_CLOSE, INPUT_OPEN,
};
use crate::path::{
    clean, clean_keeps_parts, is_entry_name, is_root_on, is_system_root, join, join_path, parent,
    parent_of_join, parent_path, parts, System,
};
use crate::rows::{is_listing, list_entries, PropertyView};
use crate::search::{ExtendedSearch, Hit, Stop, Tree};
use crate::text::{
    name_without_separator_is_kept, same_text, trim_separators, without_separators,
};
use crate::timeline::{
    base64_text, decode_side_effect, deleted_path, encode_side_effect, ffon_line, fits_record,
    is_readable, is_same, path_of, payload_of, places_fit, recorded_delete, records, snapshot_bytes,
    snapshot_size, survives_as_line, FsSideEffect, ProviderOp, OP_DELETE,
};
use vstd::prelude::*;
use vstd::string::*;

verus! {

/// The name under which the application knows the file browser.
pub const NAME: &'static str = "filebrowser";

/// The key of the name that the user reads.
pub const DISPLAY_NAME_KEY: &'static str = "filebrowser-display-name";

/// The key of the message that a delete could not be done again.
pub const REDO_FAILED_KEY: &'static str = "filebrowser-error-redo-delete-trash-failed";

/// The setting of the order.
pub const SORT_ORDER: &'static str = "sortOrder";

/// The value of that setting for the newest first.
pub const CHRONOLOGICALLY: &'static str = "chronologically";

pub const CREATE_DIRECTORY: &'static str = "create directory";

pub const CREATE_FILE: &'static str = "create file";

pub const TOGGLE_PROPERTIES: &'static str = "show/hide properties";

pub const TOGGLE_HIDDEN: &'static str = "show/hide hidden files";

pub const SORT_ALPHA: &'static str = "sort alphanumerically";

pub const SORT_CHRONO: &'static str = "sort chronologically";

/// The line of something that has no name yet.
pub const EMPTY_FIELD: &'static str = "<input></input>";

/// What the record of a delete is labelled with, before the name.
pub const DELETE_LABEL: &'static str = "delete ";

/// The file browser. `desktop` is what it reaches the trash through.
#[derive(Debug)]
pub struct FilebrowserProvider<D> {
    pub current_path: String,
    pub show_properties: bool,
    /// Entries whose names start with a dot are hidden on every system.
    pub show_hidden: bool,
    pub sort_mode: SortMode,
    /// Undoable deletes since the last drain, each with its snapshot.
    pub pending_timeline_entries: Vec<ProviderOp>,
    pub desktop: D,
    pub error: Option<String>,
}

/// What the application learns of the file browser once.
#[derive(Debug)]
pub struct Descriptor {
    pub name: String,
    pub display_name: String,
    pub version: Option<String>,
    pub supports_structural_edit: bool,
    pub path_is_filesystem: bool,
}

/// What the application learns of the file browser again and again.
#[derive(Debug)]
pub struct PollResult {
    pub at_root: bool,
    pub error: Option<String>,
    pub structural_edit_here: bool,
    pub dashboard_here: bool,
}

/// What is to be done on disk, by names in the folder on screen.
#[derive(Debug)]
pub enum FileAction {
    /// Nothing: the request is refused.
    Refuse,
    CreateDirectory(String),
    CreateFile(String),
    Rename { from: String, to: String },
}

/// What is to be done on disk, as values.
pub enum Action {
    Refuse,
    CreateDirectory(Seq<char>),
    CreateFile(Seq<char>),
    Rename { from: Seq<char>, to: Seq<char> },
}

impl View for FileAction {
    type V = Action;

    open spec fn view(&self) -> Action {
        match *self {
            FileAction::Refuse => Action::Refuse,
            FileAction::CreateDirectory(name) => Action::CreateDirectory(name@),
            FileAction::CreateFile(name) => Action::CreateFile(name@),
            FileAction::Rename { from, to } => Action::Rename { from: from@, to: to@ },
        }
    }
}

/// The action for a line that read `old_name` and now reads `new_name`. A line
/// that had no name is something new, a folder if the name ends in a colon. A
/// line that had one is renamed, unless the name is the same.
pub open spec fn edit(old_name: Seq<char>, new_name: Seq<char>) -> Action {
    if old_name.len() == 0 {
        if new_name.len() == 0 || new_name == seq![':'] {
            Action::Refuse
        } else if new_name.last() == ':' {
            Action::CreateDirectory(new_name.drop_last())
        } else {
            Action::CreateFile(new_name)
        }
    } else if old_name == new_name {
        Action::Refuse
    } else {
        Action::Rename { from: trim_separators(old_name), to: trim_separators(new_name) }
    }
}

/// A name whose last character separates nothing.
pub open spec fn ends_in_no_separator(name: Seq<char>) -> bool {
    name.len() > 0 && name.last() != '/' && name.last() != '\\'
}

/// Such a name is kept as it is.
proof fn name_without_separator_unless_empty(name: Seq<char>)
    ensures
        ends_in_no_separator(name) ==> trim_separators(name) == name,
{
    if ends_in_no_separator(name) {
        name_without_separator_is_kept(name);
    }
}

/// A new folder needs a name.
fn new_directory(name: &str) -> (r: FileAction)
    ensures
        r@ == (if name@.len() == 0 {
            Action::Refuse
        } else {
            Action::CreateDirectory(name@)
        }),
{
    if name.is_empty() {
        FileAction::Refuse
    } else {
        FileAction::CreateDirectory(name.to_owned())
    }
}

/// A new file needs a name.
fn new_file(name: &str) -> (r: FileAction)
    ensures
        r@ == (if name@.len() == 0 {
            Action::Refuse
        } else {
            Action::CreateFile(name@)
        }),
{
    if name.is_empty() {
        FileAction::Refuse
    } else {
        FileAction::CreateFile(name.to_owned())
    }
}

/// The action for a line that read `old_name` and now reads `new_name`.
pub fn edit_action(old_name: &str, new_name: &str) -> (r: FileAction)
    ensures
        r@ == edit(old_name@, new_name@),
        r is Refuse <==> old_name@ == new_name@ || (old_name@.len() == 0 && new_name@ == seq![':']),
        r is Rename <==> old_name@.len() > 0 && old_name@ != new_name@,
        match r {
            FileAction::Rename { from, to } => {
                &&& from@ == trim_separators(old_name@) && to@ == trim_separators(new_name@)
                &&& ends_in_no_separator(old_name@) ==> from@ == old_name@
                &&& ends_in_no_separator(new_name@) ==> to@ == new_name@
            },
            FileAction::CreateFile(name) => name@ == new_name@,
            FileAction::CreateDirectory(name) => name@.push(':') == new_name@,
            FileAction::Refuse => true,
        },
{
    proof {
        edits_have_names(old_name@, new_name@);
        renames_are_to_the_letter(old_name@, new_name@);
        name_without_separator_unless_empty(old_name@);
        name_without_separator_unless_empty(new_name@);
        if old_name@.len() == 0 && new_name@.len() == 0 {
            assert(old_name@ =~= new_name@);
        }
        if old_name@.len() == 0 && new_name@.len() > 0 {
            assert(new_name@ =~= new_name@.drop_last().push(new_name@.last()));
        }
    }
    if old_name.is_empty() {
        let n: usize = new_name.unicode_len();
        if n > 0 && new_name.get_char(n - 1) == ':' {
            let dir_name = new_name.substring_char(0, n - 1);
            proof {
                assert(dir_name@ =~= new_name@.drop_last());
                assert(new_name@ =~= new_name@.drop_last().push(':'));
                if n == 1 {
                    assert(new_name@ =~= seq![':']);
                }
            }
            return new_directory(dir_name);
        }
        return new_file(new_name);
    }
    if same_text(old_name, new_name) {
        return FileAction::Refuse;
    }
    FileAction::Rename { from: without_separators(old_name), to: without_separators(new_name) }
}

/// The order that a value of the setting stands for.
pub open spec fn sort_mode_of(value: Seq<char>) -> SortMode {
    if value == CHRONOLOGICALLY@ {
        SortMode::Chrono
    } else {
        SortMode::Alpha
    }
}

/// What a command does to the settings: whether properties and hidden entries
/// are shown, and the order.
pub open spec fn settings_after(
    command: Seq<char>,
    show_properties: bool,
    show_hidden: bool,
    sort_mode: SortMode,
) -> (bool, bool, SortMode) {
    (
        if command == TOGGLE_PROPERTIES@ {
            !show_properties
        } else {
            show_properties
        },
        if command == TOGGLE_HIDDEN@ {
            !show_hidden
        } else {
            show_hidden
        },
        if command == SORT_ALPHA@ {
            SortMode::Alpha
        } else if command == SORT_CHRONO@ {
            SortMode::Chrono
        } else {
            sort_mode
        },
    )
}

/// `element` is what a command inserts for the user to fill in.
pub open spec fn is_inserted(command: Seq<char>, element: Option<Element>) -> bool {
    if command == CREATE_DIRECTORY@ {
        element is Some && element->0.is_branch(EMPTY_FIELD@, seq![I_PLACEHOLDER@])
    } else if command == CREATE_FILE@ {
        element is Some && element->0.is_line(EMPTY_FIELD@)
    } else {
        element is None
    }
}

/// The commands, in the order they are offered.
pub open spec fn command_names() -> Seq<Seq<char>> {
    seq![
        CREATE_DIRECTORY@,
        CREATE_FILE@,
        TOGGLE_PROPERTIES@,
        TOGGLE_HIDDEN@,
        SORT_ALPHA@,
        SORT_CHRONO@,
    ]
}

/// The commands are six different texts.
proof fn commands_differ()
    ensures
        command_names().no_duplicates(),
{
    reveal_strlit("create directory");
    reveal_strlit("create file");
    reveal_strlit("show/hide properties");
    reveal_strlit("show/hide hidden files");
    reveal_strlit("sort alphanumerically");
    reveal_strlit("sort chronologically");
    assert(CREATE_DIRECTORY@.len() == 16);
    assert(CREATE_FILE@.len() == 11);
    assert(TOGGLE_PROPERTIES@.len() == 20);
    assert(TOGGLE_HIDDEN@.len() == 22);
    assert(SORT_ALPHA@.len() == 21);
    assert(SORT_CHRONO@.len() == 20);
    assert(TOGGLE_PROPERTIES@[1] == 'h' && SORT_CHRONO@[1] == 'o');
}

impl FilebrowserProvider<HostDesktop> {
    /// The file browser on the desktop of the application that runs it.
    pub fn new() -> (r: Self)
        ensures
            r.starts_at_root(),
            r.current_path@ == "/"@,
            !r.show_properties && !r.show_hidden && r.sort_mode == SortMode::Alpha,
            r.pending_timeline_entries@.len() == 0 && r.error is None,
    {
        FilebrowserProvider::with_desktop(HostDesktop)
    }
}

impl<D> FilebrowserProvider<D> {
    /// The state in which the file browser starts: at the root, by name, with
    /// neither properties nor hidden entries, and nothing pending.
    pub open spec fn starts_at_root(self) -> bool {
        &&& self.current_path@ == "/"@
        &&& !self.show_properties
        &&& !self.show_hidden
        &&& self.sort_mode == SortMode::Alpha
        &&& self.pending_timeline_entries@.len() == 0
        &&& self.error is None
    }

    /// The settings: whether properties and hidden entries are shown, and the order.
    pub open spec fn settings(self) -> (bool, bool, SortMode) {
        (self.show_properties, self.show_hidden, self.sort_mode)
    }

    /// The file browser on this desktop.
    pub fn with_desktop(desktop: D) -> (r: Self)
        ensures
            r.starts_at_root(),
            r.current_path@ == "/"@,
            !r.show_properties && !r.show_hidden && r.sort_mode == SortMode::Alpha,
            r.pending_timeline_entries@.len() == 0 && r.error is None,
            r.desktop == desktop,
    {
        FilebrowserProvider {
            current_path: "/".to_owned(),
            show_properties: false,
            show_hidden: false,
            sort_mode: SortMode::Alpha,
            pending_timeline_entries: Vec::new(),
            desktop,
            error: None,
        }
    }

    /// The error to tell the user, once.
    pub fn take_error(&mut self) -> (r: Option<String>)
        ensures
            r == old(self).error,
            *final(self) == (FilebrowserProvider { error: None, ..*old(self) }),
    {
        self.error.take()
    }

    /// The list of the folder on screen, which has these entries.
    pub fn list_directory(&self, entries: &Vec<RawEntry>, view: PropertyView) -> (r: Vec<Element>)
        ensures
            is_listing(
                r@,
                self.sort_mode,
                self.show_hidden,
                self.show_properties,
                view,
                entries@,
            ),
    {
        list_entries(self.sort_mode, self.show_hidden, self.show_properties, view, entries)
    }

    /// What the file browser is. Its lists can be edited, and its paths are
    /// those of the disk.
    pub fn describe(&self, display_name: String, version: String) -> (r: Descriptor)
        ensures
            r.name@ == NAME@,
            r.display_name == display_name,
            r.version == Some(version),
            r.supports_structural_edit,
            r.path_is_filesystem,
    {
        Descriptor {
            name: NAME.to_owned(),
            display_name,
            version: Some(version),
            supports_structural_edit: true,
            path_is_filesystem: true,
        }
    }

    /// Back to the root, in the order that the setting stands for, if it is set.
    pub fn init(&mut self, sort_order: Option<&str>)
        ensures
            final(self).current_path@ == "/"@,
            final(self).sort_mode == (match sort_order {
                Some(value) => sort_mode_of(value@),
                None => old(self).sort_mode,
            }),
            sort_order is Some && sort_order->0@ == "chronologically"@ ==> final(self).sort_mode
                == SortMode::Chrono,
            sort_order is Some && sort_order->0@ != "chronologically"@ ==> final(self).sort_mode
                == SortMode::Alpha,
            *final(self) == (FilebrowserProvider {
                current_path: final(self).current_path,
                sort_mode: final(self).sort_mode,
                ..*old(self)
            }),
    {
        self.current_path = "/".to_owned();
        match sort_order {
            Some(value) => self.on_setting_change(SORT_ORDER, value),
            None => {},
        }
    }

    /// Whether the system's root is on screen, and the error to tell the user, once.
    pub fn poll(&mut self, system: System) -> (r: PollResult)
        ensures
            r.at_root == is_root_on(system, old(self).current_path@),
            r.error == old(self).error,
            r.structural_edit_here,
            !r.dashboard_here,
            *final(self) == (FilebrowserProvider { error: None, ..*old(self) }),
    {
        PollResult {
            at_root: is_system_root(system, self.current_path.as_str()),
            error: self.take_error(),
            structural_edit_here: true,
            dashboard_here: false,
        }
    }

    /// Into the folder `segment`, which may end in separators, where paths are
    /// written with slashes.
    pub fn push_path(&mut self, segment: &str)
        ensures
            final(self).current_path@ == join_path(
                old(self).current_path@,
                trim_separators(segment@),
            ),
            *final(self) == (FilebrowserProvider {
                current_path: final(self).current_path,
                ..*old(self)
            }),
    {
        self.current_path = join(
            self.current_path.as_str(),
            without_separators(segment).as_str(),
        );
    }

    /// To the folder above, if there is one, where paths are written with slashes.
    pub fn pop_path(&mut self)
        ensures
            final(self).current_path@ == (match parent(old(self).current_path@) {
                Some(above) => above,
                None => old(self).current_path@,
            }),
            *final(self) == (FilebrowserProvider {
                current_path: final(self).current_path,
                ..*old(self)
            }),
    {
        match parent_path(self.current_path.as_str()) {
            Some(above) => {
                self.current_path = above;
            },
            None => {},
        }
    }

    /// The path of the folder on screen.
    pub fn current_path(&self) -> (r: &str)
        ensures
            r@ == self.current_path@,
    {
        self.current_path.as_str()
    }

    /// To the folder at `path`.
    pub fn set_current_path(&mut self, path: &str)
        ensures
            final(self).current_path@ == path@,
            *final(self) == (FilebrowserProvider {
                current_path: final(self).current_path,
                ..*old(self)
            }),
    {
        self.current_path = path.to_owned();
    }

    /// Take in a setting. Only the order is one of the file browser's.
    pub fn on_setting_change(&mut self, key: &str, value: &str)
        ensures
            final(self).sort_mode == (if key@ == SORT_ORDER@ {
                sort_mode_of(value@)
            } else {
                old(self).sort_mode
            }),
            key@ == "sortOrder"@ && value@ == "chronologically"@ ==> final(self).sort_mode
                == SortMode::Chrono,
            key@ == "sortOrder"@ && value@ != "chronologically"@ ==> final(self).sort_mode
                == SortMode::Alpha,
            key@ != "sortOrder"@ ==> final(self).sort_mode == old(self).sort_mode,
            *final(self) == (FilebrowserProvider {
                sort_mode: final(self).sort_mode,
                ..*old(self)
            }),
    {
        if same_text(key, SORT_ORDER) {
            self.sort_mode = if same_text(value, CHRONOLOGICALLY) {
                SortMode::Chrono
            } else {
                SortMode::Alpha
            };
        }
    }

    /// The action for a line that read `old_line` and now reads `new_line`, both
    /// with their markup.
    pub fn commit_edit(&self, old_line: &str, new_line: &str) -> (r: FileAction)
        ensures
            r@ == edit(display_text(old_line@), display_text(new_line@)),
            forall|old_name: Seq<char>, new_name: Seq<char>| #[trigger]
                reads_as(old_line@, old_name) && #[trigger] reads_as(new_line@, new_name) ==> r@
                    == edit(old_name, new_name),
            display_text(old_line@) != display_text(new_line@) && ends_in_no_separator(
                display_text(old_line@),
            ) && ends_in_no_separator(display_text(new_line@)) ==> (r matches FileAction::Rename {
                from,
                to,
            } && from@ == display_text(old_line@) && to@ == display_text(new_line@)),
            display_text(old_line@) == display_text(new_line@) ==> r is Refuse,
    {
        edit_action(strip_display(old_line).as_str(), strip_display(new_line).as_str())
    }

    /// The action for a new folder.
    pub fn create_directory(&self, name: &str) -> (r: FileAction)
        ensures
            r@ == (if name@.len() == 0 {
                Action::Refuse
            } else {
                Action::CreateDirectory(name@)
            }),
            name@.len() == 0 ==> r is Refuse,
            name@.len() > 0 ==> (r matches FileAction::CreateDirectory(n) && n@ == name@),
    {
        new_directory(name)
    }

    /// The action for a new file.
    pub fn create_file(&self, name: &str) -> (r: FileAction)
        ensures
            r@ == (if name@.len() == 0 {
                Action::Refuse
            } else {
                Action::CreateFile(name@)
            }),
            name@.len() == 0 ==> r is Refuse,
            name@.len() > 0 ==> (r matches FileAction::CreateFile(n) && n@ == name@),
    {
        new_file(name)
    }

    /// The name of the entry to delete, from its line.
    pub fn name_to_delete(&self, label: &str) -> (r: String)
        ensures
            r@ == trim_separators(shown_name(label@, display_text(label@))),
            forall|name: Seq<char>| #[trigger]
                reads_as(label@, name) ==> r@ == trim_separators(name),
            forall|told: Seq<char>, name: Seq<char>|
                label@ == #[trigger] (told + in_field(name)) && !has_tag(told, INPUT_OPEN@) && (
                told.len() > 0 ==> told.last() != '\\') && (forall|at: int|
                    !occurs_at(name, INPUT_CLOSE@, at)) && ends_in_no_separator(name) ==> r@
                    == name,
    {
        without_separators(entry_name(label).as_str())
    }

    /// Take in that the entry `name` was to be deleted: `side_effect` is what
    /// there was before, `trashed` whether the trash took it. A delete that the
    /// trash refused is not done, and leaves no record.
    pub fn delete_item(&mut self, name: &str, side_effect: &FsSideEffect, trashed: bool) -> (r:
        bool)
        ensures
            r == trashed,
            !trashed ==> *final(self) == *old(self),
            trashed ==> {
                &&& final(self).pending_timeline_entries@.len()
                    == old(self).pending_timeline_entries@.len() + 1
                &&& final(self).pending_timeline_entries@.drop_last()
                    == old(self).pending_timeline_entries@
                &&& ({
                    let entry = final(self).pending_timeline_entries@.last();
                    &&& entry.command@ == OP_DELETE@
                    &&& entry.payload@ == payload_of(side_effect@)
                    &&& entry.payload@.len() == 8 + (snapshot_size(side_effect@) + 2) / 3 * 4
                    &&& entry.label@ == DELETE_LABEL@ + name@
                    &&& entry.command@ == "delete"@ && entry.label@ == "delete "@ + name@
                    &&& entry.payload@ == ffon_line(base64_text(snapshot_bytes(side_effect@)))
                    &&& entry.payload@.len() < 0x1_0000_0008 ==> places_fit(entry.payload@, 0)
                        && survives_as_line(base64_text(snapshot_bytes(side_effect@)))
                    &&& fits_record(side_effect@) ==> records(entry, side_effect@)
                })
                &&& *final(self) == (FilebrowserProvider {
                    pending_timeline_entries: final(self).pending_timeline_entries,
                    ..*old(self)
                })
            },
    {
        if !trashed {
            return false;
        }
        let entry = ProviderOp {
            command: OP_DELETE.to_owned(),
            payload: encode_side_effect(side_effect),
            label: DELETE_LABEL.to_owned().concat(name),
        };
        self.pending_timeline_entries.push(entry);
        proof {
            assert(self.pending_timeline_entries@.drop_last()
                =~= old(self).pending_timeline_entries@);
        }
        true
    }

    /// The records of deletes since the last call.
    pub fn take_timeline_entries(&mut self) -> (r: Vec<ProviderOp>)
        ensures
            r@ == old(self).pending_timeline_entries@,
            final(self).pending_timeline_entries@.len() == 0,
            *final(self) == (FilebrowserProvider {
                pending_timeline_entries: final(self).pending_timeline_entries,
                ..*old(self)
            }),
    {
        let mut entries: Vec<ProviderOp> = Vec::new();
        std::mem::swap(&mut entries, &mut self.pending_timeline_entries);
        entries
    }

    /// What to put back for a record: what the delete took away. Nothing for a
    /// record that is not of a delete.
    pub fn undo(&self, entry: &ProviderOp) -> (r: Option<FsSideEffect>)
        ensures
            match r {
                Some(side_effect) => recorded_delete(entry.command@, entry.payload@) == Some(
                    side_effect@,
                ),
                None => recorded_delete(entry.command@, entry.payload@) is None,
            },
            entry.command@ != OP_DELETE@ || !is_readable(*entry) ==> r is None,
            forall|side_effect: FsSideEffect| #[trigger]
                records(*entry, side_effect@) ==> r is Some && r->0@ == side_effect@,
            forall|side_effect: FsSideEffect|
                entry.command@ == "delete"@ && places_fit(entry.payload@, 0) && survives_as_line(
                    base64_text(snapshot_bytes(side_effect@)),
                ) && entry.payload@ == ffon_line(
                    base64_text(#[trigger] snapshot_bytes(side_effect@)),
                ) ==> r is Some && is_same(side_effect, r->0),
    {
        decode_side_effect(entry)
    }

    /// The path to move to the trash again for a record: where the delete found
    /// what it took away, whatever is on screen now. None for a record that is
    /// not of a delete, or of a delete that found nothing.
    pub fn redo(&self, entry: &ProviderOp) -> (r: Option<String>)
        ensures
            match recorded_delete(entry.command@, entry.payload@) {
                Some(deleted) => match path_of(deleted) {
                    Some(path) => r is Some && r->0@ == path,
                    None => r is None,
                },
                None => r is None,
            },
            entry.command@ != OP_DELETE@ || !is_readable(*entry) ==> r is None,
            forall|side_effect: FsSideEffect| #[trigger]
                records(*entry, side_effect@) ==> match path_of(side_effect@) {
                    Some(path) => r is Some && r->0@ == path,
                    None => r is None,
                },
            forall|side_effect: FsSideEffect|
                entry.command@ == "delete"@ && places_fit(entry.payload@, 0) && survives_as_line(
                    base64_text(snapshot_bytes(side_effect@)),
                ) && entry.payload@ == ffon_line(
                    base64_text(#[trigger] snapshot_bytes(side_effect@)),
                ) ==> match side_effect {
                    FsSideEffect::TrashedFile { original_path, .. } => r is Some && r->0@
                        == original_path@,
                    FsSideEffect::TrashedDir { original_path, .. } => r is Some && r->0@
                        == original_path@,
                    FsSideEffect::RenameOnly { from, .. } => r is Some && r->0@ == from@,
                    FsSideEffect::Nothing => r is None,
                },
    {
        match decode_side_effect(entry) {
            Some(side_effect) => match deleted_path(&side_effect) {
                Some(path) => Some(path.to_owned()),
                None => None,
            },
            None => None,
        }
    }

    /// The names of a copy and what is copied, which may end in separators.
    pub fn copy_item(&self, src_name: &str, dest_name: &str) -> (r: CopyItem<String>)
        ensures
            r.src@ == trim_separators(src_name@),
            r.dst@ == trim_separators(dest_name@),
            ends_in_no_separator(src_name@) ==> r.src@ == src_name@,
            ends_in_no_separator(dest_name@) ==> r.dst@ == dest_name@,
    {
        CopyItem { src: without_separators(src_name), dst: without_separators(dest_name) }
    }

    /// The commands, in the order they are offered.
    pub fn commands(&self) -> (r: Vec<String>)
        ensures
            r@.map_values(|name: String| name@) == command_names(),
            r@.len() == 6,
            r@[0]@ == "create directory"@ && r@[1]@ == "create file"@,
            r@[2]@ == "show/hide properties"@ && r@[3]@ == "show/hide hidden files"@,
            r@[4]@ == "sort alphanumerically"@ && r@[5]@ == "sort chronologically"@,
    {
        let mut names: Vec<String> = Vec::new();
        names.push(CREATE_DIRECTORY.to_owned());
        names.push(CREATE_FILE.to_owned());
        names.push(TOGGLE_PROPERTIES.to_owned());
        names.push(TOGGLE_HIDDEN.to_owned());
        names.push(SORT_ALPHA.to_owned());
        names.push(SORT_CHRONO.to_owned());
        proof {
            assert(names@.map_values(|name: String| name@) =~= command_names());
        }
        names
    }

    /// Do a command. One that creates something gives the line for the user to
    /// fill in; the others change the settings. An unknown one does nothing.
    pub fn handle_command(&mut self, command: &str, element_key: &str, element_type: i32) -> (r:
        Result<Option<Element>, String>)
        ensures
            r is Ok && is_inserted(command@, r->Ok_0),
            final(self).settings() == settings_after(
                command@,
                old(self).show_properties,
                old(self).show_hidden,
                old(self).sort_mode,
            ),
            final(self).show_properties == (if command@ == "show/hide properties"@ {
                !old(self).show_properties
            } else {
                old(self).show_properties
            }),
            final(self).show_hidden == (if command@ == "show/hide hidden files"@ {
                !old(self).show_hidden
            } else {
                old(self).show_hidden
            }),
            command@ == "sort alphanumerically"@ ==> final(self).sort_mode == SortMode::Alpha,
            command@ == "sort chronologically"@ ==> final(self).sort_mode == SortMode::Chrono,
            command@ != "sort alphanumerically"@ && command@ != "sort chronologically"@
                ==> final(self).sort_mode == old(self).sort_mode,
            command@ == "create file"@ ==> (r->Ok_0 matches Some(Element::Str(text)) && text@
                == "<input></input>"@),
            command@ == "create directory"@ ==> (r->Ok_0 matches Some(Element::Obj(branch))
                && branch.key@ == "<input></input>"@ && branch.children@.len() == 1
                && branch.children@[0]@ == "i <input></input>"@),
            command@ != "create file"@ && command@ != "create directory"@ ==> r->Ok_0 is None,
            *final(self) == (FilebrowserProvider {
                show_properties: final(self).show_properties,
                show_hidden: final(self).show_hidden,
                sort_mode: final(self).sort_mode,
                ..*old(self)
            }),
    {
        proof {
            commands_differ();
            let names = command_names();
            assert(names[0] != names[1] && names[0] != names[2] && names[0] != names[3] && names[0]
                != names[4] && names[0] != names[5]);
            assert(names[1] != names[2] && names[1] != names[3] && names[1] != names[4] && names[1]
                != names[5]);
            assert(names[2] != names[3] && names[2] != names[4] && names[2] != names[5]);
            assert(names[3] != names[4] && names[3] != names[5] && names[4] != names[5]);
        }
        if same_text(command, CREATE_DIRECTORY) {
            return Ok(Some(Element::new_obj_with_i_placeholder(EMPTY_FIELD.to_owned())));
        }
        if same_text(command, CREATE_FILE) {
            return Ok(Some(Element::Str(EMPTY_FIELD.to_owned())));
        }
        if same_text(command, TOGGLE_PROPERTIES) {
            self.show_properties = !self.show_properties;
        } else if same_text(command, TOGGLE_HIDDEN) {
            self.show_hidden = !self.show_hidden;
        } else if same_text(command, SORT_ALPHA) {
            self.sort_mode = SortMode::Alpha;
        } else if same_text(command, SORT_CHRONO) {
            self.sort_mode = SortMode::Chrono;
        }
        Ok(None)
    }

    /// A search from the folder on screen, which the disk has at `place` and
    /// whose path the system writes `path`. It finds hidden entries if they are
    /// shown.
    pub fn run_extended_search<P>(&self, system: System, place: P, path: String) -> (r:
        ExtendedSearch<P>)
        ensures
            r.show_hidden == self.show_hidden,
            r.waiting() == seq![Stop { system, place, path: path@, breadcrumb: Seq::empty() }],
            r.found() == Seq::<Hit>::empty(),
            r.stays_below(system, path@),
            forall|tree: Tree<P>|
                tree.root == (Stop { system, place, path: path@, breadcrumb: Seq::<char>::empty() })
                    ==> #[trigger] r.is_true_to(tree),
    {
        ExtendedSearch::new(system, place, path, self.show_hidden)
    }
}

/// A command that shows or hides something undoes itself.
pub proof fn toggle_twice_restores(
    command: Seq<char>,
    show_properties: bool,
    show_hidden: bool,
    sort_mode: SortMode,
)
    requires
        command == TOGGLE_PROPERTIES@ || command == TOGGLE_HIDDEN@,
    ensures
        ({
            let once = settings_after(command, show_properties, show_hidden, sort_mode);
            &&& once != (show_properties, show_hidden, sort_mode)
            &&& settings_after(command, once.0, once.1, once.2) == (
                show_properties,
                show_hidden,
                sort_mode,
            )
        }),
{
    commands_differ();
    let names = command_names();
    assert(names[2] != names[3] && names[2] != names[4] && names[2] != names[5]);
    assert(names[3] != names[4] && names[3] != names[5]);
}

/// Of the commands that set the order, the last one counts.
pub proof fn last_order_counts(
    earlier: Seq<char>,
    command: Seq<char>,
    show_properties: bool,
    show_hidden: bool,
    sort_mode: SortMode,
)
    requires
        command == SORT_ALPHA@ || command == SORT_CHRONO@,
    ensures
        ({
            let first = settings_after(earlier, show_properties, show_hidden, sort_mode);
            settings_after(command, first.0, first.1, first.2).2 == (if command == SORT_ALPHA@ {
                SortMode::Alpha
            } else {
                SortMode::Chrono
            })
        }),
{
}

/// A command that is not offered does nothing: it inserts nothing and leaves
/// the settings as they are. One that is offered does not fall under this: it
/// inserts something, or there are settings that it changes.
pub proof fn offered_commands_act(command: Seq<char>)
    ensures
        !command_names().contains(command) ==> {
            &&& forall|element: Option<Element>| #[trigger]
                is_inserted(command, element) ==> element is None
            &&& forall|p: bool, h: bool, m: SortMode| #[trigger]
                settings_after(command, p, h, m) == (p, h, m)
        },
        command_names().contains(command) ==> {
            ||| forall|element: Option<Element>| #[trigger]
                is_inserted(command, element) ==> element is Some
            ||| exists|p: bool, h: bool, m: SortMode| #[trigger]
                settings_after(command, p, h, m) != (p, h, m)
        },
{
    let names = command_names();
    assert(names[0] == CREATE_DIRECTORY@ && names[1] == CREATE_FILE@ && names[2]
        == TOGGLE_PROPERTIES@ && names[3] == TOGGLE_HIDDEN@ && names[4] == SORT_ALPHA@ && names[5]
        == SORT_CHRONO@);
    if !names.contains(command) {
        assert(forall|k: int| 0 <= k < 6 ==> #[trigger] names[k] != command);
    } else {
        assert(settings_after(command, false, false, SortMode::Chrono) == settings_after(
            command,
            false,
            false,
            SortMode::Chrono,
        ));
        commands_differ();
        if command == SORT_CHRONO@ {
            assert(names[5] != names[4]);
            assert(settings_after(command, false, false, SortMode::Alpha).2 == SortMode::Chrono);
        } else if command == SORT_ALPHA@ {
            assert(settings_after(command, false, false, SortMode::Chrono).2 == SortMode::Alpha);
        } else if command == TOGGLE_PROPERTIES@ {
            assert(settings_after(command, false, false, SortMode::Alpha).0);
        } else if command == TOGGLE_HIDDEN@ {
            assert(settings_after(command, false, false, SortMode::Alpha).1);
        }
    }
}

/// Into an entry of a folder and up again leads back to the folder.
pub proof fn up_undoes_down(path: Seq<char>, segment: Seq<char>)
    requires
        is_entry_name(trim_separators(segment)),
    ensures
        parent(join_path(path, trim_separators(segment))) == Some(clean(path)),
        clean(path) == path ==> parent(join_path(path, trim_separators(segment))) == Some(path),
        parts(clean(path)) == parts(path),
{
    parent_of_join(path, trim_separators(segment));
    clean_keeps_parts(path);
}

/// Nothing is created without a name, and nothing is renamed to the name it has.
pub proof fn edits_have_names(old_name: Seq<char>, new_name: Seq<char>)
    ensures
        match edit(old_name, new_name) {
            Action::Refuse => true,
            Action::CreateDirectory(name) => old_name.len() == 0 && name.len() > 0 && new_name
                == name.push(':'),
            Action::CreateFile(name) => old_name.len() == 0 && name.len() > 0 && new_name == name,
            Action::Rename { from, to } => old_name.len() > 0 && old_name != new_name,
        },
        edit(old_name, new_name) is Refuse <==> old_name == new_name || (old_name.len() == 0
            && new_name == seq![':']),
{
    if old_name.len() == 0 && new_name.len() > 0 {
        assert(new_name =~= new_name.drop_last().push(new_name.last()));
        if new_name.len() == 1 {
            assert(new_name =~= seq![new_name.last()]);
        }
    }
    if old_name.len() == 0 && new_name.len() == 0 {
        assert(old_name =~= new_name);
    }
}

/// An edit of a line that had a name renames from the old name to the new one,
/// to the letter: names that end in no separator are taken whole, and of others
/// only separators at the end are lost.
pub proof fn renames_are_to_the_letter(old_name: Seq<char>, new_name: Seq<char>)
    ensures
        old_name.len() > 0 && old_name != new_name ==> edit(old_name, new_name) is Rename,
        match edit(old_name, new_name) {
            Action::Rename { from, to } => {
                &&& from == trim_separators(old_name) && to == trim_separators(new_name)
                &&& old_name.len() > 0 && old_name.last() != '/' && old_name.last() != '\\'
                    ==> from == old_name
                &&& new_name.len() > 0 && new_name.last() != '/' && new_name.last() != '\\'
                    ==> to == new_name
            },
            _ => true,
        },
{
    name_without_separator_unless_empty(old_name);
    name_without_separator_unless_empty(new_name);
}

/// Two renames to different names that end in no separator differ.
pub proof fn different_names_rename_differently(
    old_name: Seq<char>,
    new_name: Seq<char>,
    other_name: Seq<char>,
)
    requires
        old_name.len() > 0,
        ends_in_no_separator(new_name),
        ends_in_no_separator(other_name),
        new_name != old_name,
        other_name != old_name,
        new_name != other_name,
    ensures
        edit(old_name, new_name) != edit(old_name, other_name),
{
    renames_are_to_the_letter(old_name, new_name);
    renames_are_to_the_letter(old_name, other_name);
}

/// A line without a name becomes a file with the name typed, or with a colon
/// behind it a folder with that name, whatever the name is.
pub proof fn typed_names_are_created(name: Seq<char>)
    requires
        name.len() > 0,
    ensures
        name.last() != ':' ==> edit(Seq::empty(), name) == Action::CreateFile(name),
        edit(Seq::empty(), name.push(':')) == Action::CreateDirectory(name),
{
    assert(name.push(':').drop_last() =~= name);
    assert(name.push(':').len() > 1);
    assert(seq![':'].len() == 1);
    assert(Seq::<char>::empty() != name);
}

/// The order is a setting with two values: one word stands for the newest first,
/// anything else for the order by name.
pub proof fn one_word_is_chronological(value: Seq<char>)
    ensures
        sort_mode_of(value) == SortMode::Chrono <==> value == "chronologically"@,
        sort_mode_of(value) == SortMode::Alpha <==> value != "chronologically"@,
{
}

/// What each command does to the settings, by its name.
pub proof fn commands_do_what_they_say(
    command: Seq<char>,
    show_properties: bool,
    show_hidden: bool,
    sort_mode: SortMode,
)
    ensures
        ({
            let after = settings_after(command, show_properties, show_hidden, sort_mode);
            &&& after.0 != show_properties <==> command == "show/hide properties"@
            &&& after.1 != show_hidden <==> command == "show/hide hidden files"@
            &&& command == "sort alphanumerically"@ ==> after.2 == SortMode::Alpha
            &&& command == "sort chronologically"@ ==> after.2 == SortMode::Chrono
            &&& command != "sort alphanumerically"@ && command != "sort chronologically"@
                ==> after.2 == sort_mode
        }),
{
    commands_differ();
    assert(command_names()[4] != command_names()[5]);
}

/// An action is what it says, with the names it says.
pub proof fn actions_are_their_names(action: FileAction)
    ensures
        match action {
            FileAction::Refuse => action@ == Action::Refuse,
            FileAction::CreateDirectory(name) => action@ == Action::CreateDirectory(name@),
            FileAction::CreateFile(name) => action@ == Action::CreateFile(name@),
            FileAction::Rename { from, to } => action@ == (Action::Rename { from: from@, to: to@ }),
        },
{
}

}
