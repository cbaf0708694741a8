//! The explorer: a directory tree that is walked line by line.

use vstd::prelude::*;
use vstd::utf8::encode_utf8;
use crate::event::Uuid;
use crate::style::canvas::{Canvas, CanvasView};
use crate::textedit::buffer_display::{first_break, lemma_first_break_is};
use crate::textedit::model::LINE_BREAK;
use crate::style::style::{StyleAttribute, StyledText, ThemeColor};
use crate::text::{joined, same_text};
use crate::window::window::{
    all_wf, appended, grown, id_of, post_all, posted_by, views_of, Bus, DirectoryEntry, Key,
    Modifiers, Poster, RequestView, WindowEvent, WindowRequest,
};

verus! {

/// A file or a directory of the tree. A directory holds its entries while
/// it is open.
pub struct DirectoryRep {
    pub children: Vec<DirectoryRep>,
    pub dir: String,
    pub name: String,
    pub is_dir: bool,
    pub is_open: bool,
}

/// A node of the tree with what lies under it, as text and sequences.
pub struct DirView {
    pub name: Seq<char>,
    pub dir: Seq<char>,
    pub is_dir: bool,
    pub is_open: bool,
    pub children: Seq<DirView>,
}

impl DirView {
    /// Whether the entries of the node are shown: it is an open directory.
    pub open spec fn shown(self) -> bool {
        self.is_dir && self.is_open
    }

    /// The nodes of the tree in the order of their lines: the node, then,
    /// where it is an open directory, its entries with theirs, each in turn.
    pub open spec fn flat(self) -> Seq<DirView>
        decreases self, 1nat, 0nat,
    {
        if self.shown() {
            seq![self] + self.flat_kids(self.children.len())
        } else {
            seq![self]
        }
    }

    /// The nodes under the first `upto` entries, in the order of their lines.
    pub open spec fn flat_kids(self, upto: nat) -> Seq<DirView>
        decreases self, 0nat, upto,
    {
        if upto == 0 || upto > self.children.len() {
            Seq::empty()
        } else {
            self.flat_kids((upto - 1) as nat) + self.children[upto - 1].flat()
        }
    }

    /// The nodes under the first entries stay where they are when more
    /// entries are taken in.
    pub proof fn lemma_flat_kids_prefix(self, few: nat, many: nat)
        requires
            few <= many <= self.children.len(),
        ensures
            self.flat_kids(few).is_prefix_of(self.flat_kids(many)),
        decreases many - few,
    {
        if few < many {
            self.lemma_flat_kids_prefix(few, (many - 1) as nat);
        }
    }

    /// Where the line `rest` of the entry `entry` lies among the lines of
    /// the whole tree.
    pub proof fn lemma_line_of_kid(self, entry: int, rest: int)
        requires
            self.shown(),
            0 <= entry < self.children.len(),
            0 <= rest < self.children[entry].flat().len(),
        ensures
            1 + self.flat_kids(entry as nat).len() + rest < self.flat().len(),
            self.flat()[1 + self.flat_kids(entry as nat).len() + rest] == self.children[entry].flat()[rest],
    {
        let upto = self.flat_kids((entry + 1) as nat);
        let whole = self.flat_kids(self.children.len());
        let at = self.flat_kids(entry as nat).len() + rest;
        assert(upto == self.flat_kids(entry as nat) + self.children[entry].flat());
        assert(upto[at] == self.children[entry].flat()[rest]);
        self.lemma_flat_kids_prefix((entry + 1) as nat, self.children.len());
        assert(whole[at] == upto[at]);
        assert(self.flat()[1 + at] == whole[at]);
    }

    /// The node as a toggle leaves it: an open directory is closed and lets
    /// go of its entries, anything else stays as it is.
    pub open spec fn toggled(self) -> DirView {
        if self.is_dir && self.is_open {
            DirView { is_open: false, children: Seq::empty(), ..self }
        } else {
            self
        }
    }

    /// The tree with the node on its line `line` toggled.
    pub open spec fn toggled_at(self, line: int) -> DirView
        decreases self, 1nat, 0nat,
    {
        if line == 0 {
            self.toggled()
        } else if !self.shown() {
            self
        } else {
            DirView { children: self.toggled_kids(self.children.len(), line - 1), ..self }
        }
    }

    /// The first `upto` entries, the node toggled that is on the line `rest`
    /// of the lines under the node.
    pub open spec fn toggled_kids(self, upto: nat, rest: int) -> Seq<DirView>
        decreases self, 0nat, upto,
    {
        if upto == 0 || upto > self.children.len() {
            Seq::empty()
        } else {
            let inner = rest - self.flat_kids((upto - 1) as nat).len();
            self.toggled_kids((upto - 1) as nat, rest).push(
                if 0 <= inner < self.children[upto - 1].flat().len() {
                    self.children[upto - 1].toggled_at(inner)
                } else {
                    self.children[upto - 1]
                },
            )
        }
    }

    /// The entries after a toggle, one for one: the entry that the line
    /// lies in is toggled there, the others are as they were.
    pub proof fn lemma_toggled_kids(self, upto: nat, rest: int)
        requires
            upto <= self.children.len(),
        ensures
            self.toggled_kids(upto, rest).len() == upto,
            forall|k: int|
                0 <= k < upto ==> #[trigger] self.toggled_kids(upto, rest)[k] == if 0 <= rest
                    - self.flat_kids(k as nat).len() < self.children[k].flat().len() {
                    self.children[k].toggled_at(rest - self.flat_kids(k as nat).len())
                } else {
                    self.children[k]
                },
        decreases upto,
    {
        if upto > 0 {
            self.lemma_toggled_kids((upto - 1) as nat, rest);
        }
    }

    /// Whether the tree holds a directory whose path is `path`.
    pub open spec fn holds(self, path: Seq<char>) -> bool
        decreases self, 1nat, 0nat,
    {
        (self.is_dir && self.dir == path) || self.kids_hold(self.children.len(), path)
    }

    /// Whether one of the first `upto` entries holds a directory whose path
    /// is `path`.
    pub open spec fn kids_hold(self, upto: nat, path: Seq<char>) -> bool
        decreases self, 0nat, upto,
    {
        if upto == 0 || upto > self.children.len() {
            false
        } else {
            self.kids_hold((upto - 1) as nat, path) || self.children[upto - 1].holds(path)
        }
    }

    /// What the first entries hold, more entries hold too.
    pub proof fn lemma_kids_hold_more(self, few: nat, many: nat, path: Seq<char>)
        requires
            few <= many <= self.children.len(),
            self.kids_hold(few, path),
        ensures
            self.kids_hold(many, path),
        decreases many - few,
    {
        if few < many {
            self.lemma_kids_hold_more(few, (many - 1) as nat, path);
        }
    }

    /// The tree with the first directory whose path is `path`, in the order
    /// of the lines, opened on `entries`.
    pub open spec fn opened_at(self, path: Seq<char>, entries: Seq<DirView>) -> DirView
        decreases self, 1nat, 0nat,
    {
        if self.is_dir && self.dir == path {
            DirView { is_open: true, children: entries, ..self }
        } else {
            DirView {
                children: self.opened_kids(self.children.len(), path, entries),
                ..self
            }
        }
    }

    /// The first `upto` entries, the first of them that holds a directory
    /// whose path is `path` with that directory opened on `entries`.
    pub open spec fn opened_kids(self, upto: nat, path: Seq<char>, entries: Seq<DirView>) -> Seq<
        DirView,
    >
        decreases self, 0nat, upto,
    {
        if upto == 0 || upto > self.children.len() {
            Seq::empty()
        } else {
            self.opened_kids((upto - 1) as nat, path, entries).push(
                if !self.kids_hold((upto - 1) as nat, path) && self.children[upto - 1].holds(
                    path,
                ) {
                    self.children[upto - 1].opened_at(path, entries)
                } else {
                    self.children[upto - 1]
                },
            )
        }
    }

    /// The entries after a directory was opened, one for one.
    pub proof fn lemma_opened_kids(self, upto: nat, path: Seq<char>, entries: Seq<DirView>)
        requires
            upto <= self.children.len(),
        ensures
            self.opened_kids(upto, path, entries).len() == upto,
            forall|k: int|
                0 <= k < upto ==> #[trigger] self.opened_kids(upto, path, entries)[k]
                    == if !self.kids_hold(k as nat, path) && self.children[k].holds(path) {
                    self.children[k].opened_at(path, entries)
                } else {
                    self.children[k]
                },
        decreases upto,
    {
        if upto > 0 {
            self.lemma_opened_kids((upto - 1) as nat, path, entries);
        }
    }

    /// What the line of the node reads: its name, behind `> ` for a closed
    /// directory and `v ` for an open one.
    pub open spec fn label(self) -> Seq<char> {
        if !self.is_dir {
            self.name
        } else if self.is_open {
            "v "@ + self.name
        } else {
            "> "@ + self.name
        }
    }

    /// The tree as text: a line for each node, each set in by two cells
    /// more than the directory it lies in, the lines parted by linebreaks.
    pub open spec fn rendered(self, indent: Seq<char>) -> Seq<char>
        decreases self, 1nat, 0nat,
    {
        if self.is_dir && self.is_open {
            indent + self.label() + seq!['\n'] + self.rendered_kids(
                "  "@ + indent,
                self.children.len(),
            )
        } else {
            indent + self.label()
        }
    }

    /// The first `upto` entries as text, parted by linebreaks.
    pub open spec fn rendered_kids(self, indent: Seq<char>, upto: nat) -> Seq<char>
        decreases self, 0nat, upto,
    {
        if upto == 0 || upto > self.children.len() {
            Seq::empty()
        } else if upto == 1 {
            self.children[0].rendered(indent)
        } else {
            self.rendered_kids(indent, (upto - 1) as nat) + seq!['\n'] + self.children[upto
                - 1].rendered(indent)
        }
    }
}

/// What the file system lists in a directory, as closed nodes.
pub open spec fn listed(entries: Seq<DirectoryEntry>) -> Seq<DirView> {
    Seq::new(
        entries.len(),
        |i: int|
            DirView {
                name: entries[i].name@,
                dir: entries[i].path@,
                is_dir: entries[i].is_dir,
                is_open: false,
                children: Seq::empty(),
            },
    )
}

impl View for DirectoryRep {
    type V = DirView;

    open spec fn view(&self) -> DirView {
        self.seen()
    }
}

impl DirectoryRep {
    /// The node with what lies under it.
    pub open spec fn seen(self) -> DirView
        decreases self, 1nat, 0nat,
    {
        DirView {
            name: self.name@,
            dir: self.dir@,
            is_dir: self.is_dir,
            is_open: self.is_open,
            children: self.seen_kids(self.children@.len()),
        }
    }

    /// The first `upto` entries with what lies under them.
    pub open spec fn seen_kids(self, upto: nat) -> Seq<DirView>
        decreases self, 0nat, upto,
    {
        if upto == 0 || upto > self.children@.len() {
            Seq::empty()
        } else {
            self.seen_kids((upto - 1) as nat).push(self.children@[upto - 1].seen())
        }
    }

    /// The entries as they are seen, one for one.
    pub proof fn lemma_seen_kids(self, upto: nat)
        requires
            upto <= self.children@.len(),
        ensures
            self.seen_kids(upto).len() == upto,
            forall|i: int| 0 <= i < upto ==> #[trigger] self.seen_kids(upto)[i] == self.children@[i]@,
        decreases upto,
    {
        if upto > 0 {
            self.lemma_seen_kids((upto - 1) as nat);
        }
    }

    /// The entries of the node as they are seen, one for one.
    pub proof fn lemma_seen(self)
        ensures
            self@.children.len() == self.children@.len(),
            forall|i: int|
                0 <= i < self.children@.len() ==> #[trigger] self@.children[i] == self.children@[i]@,
    {
        self.lemma_seen_kids(self.children@.len());
    }

    /// A closed node.
    pub fn new(name: String, dir: String, is_dir: bool) -> (node: Self)
        ensures
            node@ == (DirView {
                name: name@,
                dir: dir@,
                is_dir,
                is_open: false,
                children: Seq::empty(),
            }),
    {
        DirectoryRep { children: Vec::new(), dir, name, is_dir, is_open: false }
    }

    /// Close the directory where it is open. Whether it is a closed
    /// directory still: one that can be opened once its entries are listed.
    pub fn toggle(&mut self) -> (wants_listing: bool)
        ensures
            final(self)@ == old(self)@.toggled(),
            wants_listing == (old(self)@.is_dir && !old(self)@.is_open),
    {
        if !self.is_dir {
            return false;
        }
        if self.is_open {
            self.close();
            false
        } else {
            true
        }
    }

    /// Open the directory on `entries`, which are what the file system
    /// lists in it. A file stays as it is.
    pub fn open(&mut self, entries: Vec<DirectoryEntry>)
        ensures
            final(self)@ == if old(self)@.is_dir {
                DirView { is_open: true, children: listed(entries@), ..old(self)@ }
            } else {
                old(self)@
            },
    {
        if !self.is_dir {
            return ;
        }
        let mut children: Vec<DirectoryRep> = Vec::new();
        let mut entries = entries;
        let ghost all = entries@;
        let total = entries.len();
        let mut i: usize = 0;
        while entries.len() > 0
            invariant
                total == all.len(),
                i + entries@.len() == all.len(),
                entries@ == all.skip(i as int),
                children@.len() == i,
                forall|k: int|
                    0 <= k < i ==> (#[trigger] children@[k])@ == (DirView {
                        name: all[k].name@,
                        dir: all[k].path@,
                        is_dir: all[k].is_dir,
                        is_open: false,
                        children: Seq::empty(),
                    }),
            decreases entries@.len(),
        {
            let entry = entries.remove(0);
            assert(entry == all[i as int]);
            children.push(DirectoryRep::new(entry.name, entry.path, entry.is_dir));
            i += 1;
            assert(entries@ =~= all.skip(i as int));
        }
        self.children = children;
        self.is_open = true;
        proof {
            self.lemma_seen();
            assert(self@.children =~= listed(all));
        }
    }

    /// Close the directory and let go of its entries. A file stays as it is.
    pub fn close(&mut self)
        ensures
            final(self)@ == if old(self)@.is_dir {
                DirView { is_open: false, children: Seq::empty(), ..old(self)@ }
            } else {
                old(self)@
            },
    {
        if !self.is_dir {
            return ;
        }
        self.children = Vec::new();
        self.is_open = false;
    }

    /// The entry number `idx`.
    pub fn get_child(&self, idx: usize) -> (child: Option<&DirectoryRep>)
        ensures
            match child {
                Some(node) => idx < self@.children.len() && node@ == self@.children[idx as int],
                None => idx >= self@.children.len(),
            },
    {
        proof {
            self.lemma_seen();
        }
        if idx < self.children.len() {
            Some(&self.children[idx])
        } else {
            None
        }
    }

    /// Look for the node on the line `remaining` of the tree. Where the
    /// tree has fewer lines, the lines that are left behind it are
    /// handed back.
    pub fn _map_line_child(&self, remaining: usize) -> (found: Result<&DirectoryRep, usize>)
        ensures
            match found {
                Ok(node) => remaining < self@.flat().len() && node@ == self@.flat()[remaining as int],
                Err(rest) => remaining >= self@.flat().len() && rest == remaining
                    - self@.flat().len(),
            },
        decreases self,
    {
        if remaining == 0 {
            return Ok(self);
        }
        if !(self.is_dir && self.is_open) {
            return Err(remaining - 1);
        }
        proof {
            self.lemma_seen();
        }
        let mut rest = remaining - 1;
        let mut i: usize = 0;
        assert(self@.flat_kids(0) =~= Seq::<DirView>::empty());
        while i < self.children.len()
            invariant
                i <= self.children@.len(),
                self@.shown(),
                self@.children.len() == self.children@.len(),
                forall|k: int|
                    0 <= k < self.children@.len() ==> #[trigger] self@.children[k]
                        == self.children@[k]@,
                remaining >= 1 + self@.flat_kids(i as nat).len(),
                rest == remaining - 1 - self@.flat_kids(i as nat).len(),
            decreases self.children@.len() - i,
        {
            match self.children[i]._map_line_child(rest) {
                Ok(node) => {
                    proof {
                        assert(self@.children[i as int] == self.children@[i as int]@);
                        self@.lemma_line_of_kid(i as int, rest as int);
                    }
                    return Ok(node);
                },
                Err(left) => {
                    assert(self@.children[i as int] == self.children@[i as int]@);
                    rest = left;
                },
            }
            i += 1;
        }
        Err(rest)
    }

    /// The node on the line `interface_line` of the tree, the first line
    /// being that of the root.
    pub fn map_line_child(&self, interface_line: usize) -> (found: Option<&DirectoryRep>)
        ensures
            match found {
                Some(node) => interface_line < self@.flat().len() && node@
                    == self@.flat()[interface_line as int],
                None => interface_line >= self@.flat().len(),
            },
    {
        match self._map_line_child(interface_line) {
            Ok(node) => Some(node),
            Err(_) => None,
        }
    }

    /// Toggle the node on the line `remaining` of the tree: an open
    /// directory is closed. Whether the node is a closed directory, which
    /// can be opened once its entries are listed, comes back. Where the tree
    /// has fewer lines nothing changes and the lines that are left behind
    /// it are handed back.
    pub fn toggle_line(&mut self, remaining: usize) -> (found: Result<bool, usize>)
        ensures
            final(self)@.name == old(self)@.name,
            final(self)@.dir == old(self)@.dir,
            final(self)@.is_dir == old(self)@.is_dir,
            match found {
                Ok(wants_listing) => remaining < old(self)@.flat().len() && wants_listing == (old(
                    self,
                )@.flat()[remaining as int].is_dir && !old(self)@.flat()[remaining as int].is_open)
                    && final(self)@ == old(self)@.toggled_at(remaining as int),
                Err(rest) => final(self)@ == old(self)@ && remaining >= old(self)@.flat().len()
                    && rest == remaining - old(self)@.flat().len(),
            },
        decreases *old(self),
    {
        if remaining == 0 {
            return Ok(self.toggle());
        }
        if !(self.is_dir && self.is_open) {
            return Err(remaining - 1);
        }
        proof {
            self.lemma_seen();
        }
        let ghost before = self@;
        let mut rest = remaining - 1;
        let mut i: usize = 0;
        assert(before.flat_kids(0) =~= Seq::<DirView>::empty());
        while i < self.children.len()
            invariant
                i <= self.children@.len(),
                self.name == old(self).name,
                self.dir == old(self).dir,
                self.is_dir == old(self).is_dir,
                self.is_open == old(self).is_open,
                before == old(self)@,
                before.shown(),
                before.children.len() == self.children@.len(),
                old(self).children@.len() == self.children@.len(),
                forall|k: int|
                    0 <= k < self.children@.len() ==> #[trigger] before.children[k]
                        == self.children@[k]@,
                forall|k: int|
                    i <= k < self.children@.len() ==> #[trigger] self.children@[k] == old(
                        self,
                    ).children@[k],
                remaining >= 1 + before.flat_kids(i as nat).len(),
                rest == remaining - 1 - before.flat_kids(i as nat).len(),
            decreases self.children@.len() - i,
        {
            assert(before.children[i as int] == self.children@[i as int]@);
            assert(self.children@[i as int] == old(self).children@[i as int]);
            let ghost kids = self.children@;
            match self.children[i].toggle_line(rest) {
                Ok(wants_listing) => {
                    proof {
                        before.lemma_line_of_kid(i as int, rest as int);
                        let count = before.children.len();
                        before.lemma_toggled_kids(count, remaining - 1);
                        self.lemma_seen();
                        assert forall|k: int| 0 <= k < count implies #[trigger] self@.children[k]
                            == before.toggled_kids(count, remaining - 1)[k] by {
                            if k < i {
                                assert(self.children@[k] == kids[k]);
                                before.lemma_flat_kids_prefix((k + 1) as nat, i as nat);
                            } else if k > i {
                                assert(self.children@[k] == kids[k]);
                                before.lemma_flat_kids_prefix((i + 1) as nat, k as nat);
                            }
                        }
                        assert(self@.children =~= before.toggled_kids(count, remaining - 1));
                    }
                    return Ok(wants_listing);
                },
                Err(left) => {
                    rest = left;
                },
            }
            i += 1;
        }
        proof {
            self.lemma_seen();
            assert(self@.children =~= before.children);
        }
        Err(rest)
    }

    /// Open the first directory whose path is `path`, in the order of the
    /// lines, on `entries`. Where there is no such directory nothing
    /// changes and the entries are handed back.
    pub fn open_path(&mut self, path: &str, entries: Vec<DirectoryEntry>) -> (found: Result<
        (),
        Vec<DirectoryEntry>,
    >)
        ensures
            final(self)@.name == old(self)@.name,
            final(self)@.dir == old(self)@.dir,
            final(self)@.is_dir == old(self)@.is_dir,
            match found {
                Ok(_) => old(self)@.holds(path@) && final(self)@ == old(self)@.opened_at(
                    path@,
                    listed(entries@),
                ),
                Err(back) => !old(self)@.holds(path@) && final(self)@ == old(self)@ && back
                    == entries,
            },
        decreases *old(self),
    {
        if self.is_dir && same_text(self.dir.as_str(), path) {
            self.open(entries);
            return Ok(());
        }
        proof {
            self.lemma_seen();
        }
        let ghost before = self@;
        let ghost given = entries;
        let mut left = entries;
        let mut i: usize = 0;
        while i < self.children.len()
            invariant
                i <= self.children@.len(),
                self.name == old(self).name,
                self.dir == old(self).dir,
                self.is_dir == old(self).is_dir,
                self.is_open == old(self).is_open,
                before == old(self)@,
                !(before.is_dir && before.dir == path@),
                before.children.len() == self.children@.len(),
                old(self).children@.len() == self.children@.len(),
                forall|k: int|
                    0 <= k < self.children@.len() ==> #[trigger] before.children[k]
                        == self.children@[k]@,
                forall|k: int|
                    i <= k < self.children@.len() ==> #[trigger] self.children@[k] == old(
                        self,
                    ).children@[k],
                left == given,
                given == entries,
                !before.kids_hold(i as nat, path@),
            decreases self.children@.len() - i,
        {
            assert(before.children[i as int] == self.children@[i as int]@);
            assert(self.children@[i as int] == old(self).children@[i as int]);
            let ghost kids = self.children@;
            match self.children[i].open_path(path, left) {
                Ok(()) => {
                    proof {
                        let count = before.children.len();
                        assert(before.kids_hold((i + 1) as nat, path@));
                        before.lemma_kids_hold_more((i + 1) as nat, count, path@);
                        before.lemma_opened_kids(count, path@, listed(given@));
                        self.lemma_seen();
                        assert forall|k: int| 0 <= k < count implies #[trigger] self@.children[k]
                            == before.opened_kids(count, path@, listed(given@))[k] by {
                            if k < i {
                                assert(self.children@[k] == kids[k]);
                                if before.children[k].holds(path@) {
                                    assert(before.kids_hold((k + 1) as nat, path@));
                                    before.lemma_kids_hold_more((k + 1) as nat, i as nat, path@);
                                }
                            } else if k > i {
                                assert(self.children@[k] == kids[k]);
                                before.lemma_kids_hold_more((i + 1) as nat, k as nat, path@);
                            }
                        }
                        assert(self@.children =~= before.opened_kids(
                            count,
                            path@,
                            listed(given@),
                        ));
                    }
                    return Ok(());
                },
                Err(back) => {
                    left = back;
                },
            }
            i += 1;
        }
        proof {
            self.lemma_seen();
            assert(self@.children =~= before.children);
        }
        Err(left)
    }

    /// The tree as text, every line set in by `indent`.
    pub fn to_string_with_indent(&self, indent: &str) -> (text: String)
        ensures
            text@ == self@.rendered(indent@),
        decreases self,
    {
        proof {
            reveal_strlit("\n");
            self.lemma_seen();
        }
        if !self.is_dir {
            return joined(indent, self.name.as_str());
        }
        if !self.is_open {
            let head = joined(indent, "> ");
            let text = joined(head.as_str(), self.name.as_str());
            assert(text@ =~= indent@ + ("> "@ + self.name@));
            return text;
        }
        let head = joined(indent, "v ");
        let line = joined(head.as_str(), self.name.as_str());
        let mut out = joined(line.as_str(), "\n");
        let child_indent = joined("  ", indent);
        let ghost start = indent@ + self@.label() + seq!['\n'];
        assert(out@ =~= start);
        let mut i: usize = 0;
        assert(start + self@.rendered_kids(child_indent@, 0) =~= start);
        while i < self.children.len()
            invariant
                i <= self.children@.len(),
                self@.children.len() == self.children@.len(),
                forall|k: int|
                    0 <= k < self.children@.len() ==> #[trigger] self@.children[k]
                        == self.children@[k]@,
                child_indent@ == "  "@ + indent@,
                "\n"@ == seq!['\n'],
                out@ == start + self@.rendered_kids(child_indent@, i as nat),
            decreases self.children@.len() - i,
        {
            assert(self@.children[i as int] == self.children@[i as int]@);
            let below = self.children[i].to_string_with_indent(child_indent.as_str());
            if i > 0 {
                out = joined(out.as_str(), "\n");
            }
            out = joined(out.as_str(), below.as_str());
            i += 1;
            assert(out@ =~= start + self@.rendered_kids(child_indent@, i as nat));
        }
        out
    }

    /// The tree as text.
    pub fn to_string(&self) -> (text: String)
        ensures
            text@ == self@.rendered(Seq::empty()),
    {
        let text = self.to_string_with_indent("");
        proof {
            reveal_strlit("");
            assert(""@ =~= Seq::<char>::empty());
        }
        text
    }
}

/// An explorer as its events see it.
pub struct FSWindowView {
    pub line: int,
    pub root: DirView,
    pub poster: Option<Uuid>,
}

impl FSWindowView {
    /// The line that is selected after `key`: `j` goes down where there is
    /// a line to go to, `k` goes up where there is one.
    pub open spec fn line_after(self, key: Key) -> int {
        match key {
            Key::Char(c) => if c == 'j' {
                if self.line + 1 < self.root.flat().len() && self.line + 1 <= usize::MAX {
                    self.line + 1
                } else {
                    self.line
                }
            } else if c == 'k' {
                if self.line > 0 {
                    self.line - 1
                } else {
                    self.line
                }
            } else {
                self.line
            },
            _ => self.line,
        }
    }

    /// The tree after `event`: Enter toggles the node on the selected
    /// line, and a listing opens the directory it is of.
    pub open spec fn root_after(self, event: WindowEvent) -> DirView {
        match event {
            WindowEvent::Input { key: Key::Enter, .. } => if 0 <= self.line
                < self.root.flat().len() {
                self.root.toggled_at(self.line)
            } else {
                self.root
            },
            WindowEvent::Listing { path, entries } => if self.root.holds(path@) {
                self.root.opened_at(path@, listed(entries@))
            } else {
                self.root
            },
            _ => self.root,
        }
    }

    /// What a key has the explorer post: Enter on a file that the file is
    /// to be opened, Enter on a closed directory that it is to be listed.
    pub open spec fn key_posts(self, key: Key) -> Seq<RequestView> {
        match key {
            Key::Enter => if self.line < self.root.flat().len() {
                let node = self.root.flat()[self.line];
                if !node.is_dir {
                    seq![RequestView::OpenFile(node.dir)]
                } else if !node.is_open {
                    seq![RequestView::ListDirectory(node.dir)]
                } else {
                    Seq::empty()
                }
            } else {
                Seq::empty()
            },
            _ => Seq::empty(),
        }
    }

    /// What the explorer posts on `event`, the wish to be drawn last.
    pub open spec fn posts(self, event: WindowEvent) -> Seq<RequestView> {
        (match event {
            WindowEvent::Input { key, .. } => self.key_posts(key),
            _ => Seq::empty(),
        }).push(RequestView::Redraw)
    }
}

/// The explorer: a directory tree with one line selected.
pub struct FSWindow {
    line: usize,
    dir: DirectoryRep,
    poster: Option<Poster>,
}

impl View for FSWindow {
    type V = FSWindowView;

    closed spec fn view(&self) -> FSWindowView {
        FSWindowView { line: self.line as int, root: self.dir@, poster: id_of(self.poster) }
    }
}

impl FSWindow {
    /// An explorer on the tree under `dir`, its first line selected.
    pub fn new(dir: DirectoryRep) -> (window: Self)
        ensures
            window@ == (FSWindowView { line: 0, root: dir@, poster: None }),
    {
        FSWindow { line: 0, dir, poster: None }
    }

    /// Take the poster to post with.
    pub fn init(&mut self, poster: Poster)
        ensures
            final(self)@ == (FSWindowView { poster: Some(poster.id()), ..old(self)@ }),
    {
        self.poster = Some(poster);
    }

    /// The label of the window.
    pub fn name(&self) -> (name: String)
        ensures
            name@ == "Explorer"@,
    {
        String::from_str("Explorer")
    }

    /// The tree that is shown.
    pub fn get_dir(&self) -> (dir: &DirectoryRep)
        ensures
            dir@ == self@.root,
    {
        &self.dir
    }

    /// The line that is selected.
    pub fn get_line(&self) -> (line: usize)
        ensures
            line == self@.line,
    {
        self.line
    }

    /// Take in a key: `j` and `k` move the selection, Enter opens the file
    /// or toggles the directory on the selected line.
    fn input(&mut self, key: Key, out: &mut Vec<WindowRequest>)
        ensures
            final(self)@.line == old(self)@.line_after(key),
            final(self)@.poster == old(self)@.poster,
            final(self)@.root.name == old(self)@.root.name,
            final(self)@.root.dir == old(self)@.root.dir,
            final(self)@.root == if key is Enter && old(self)@.line < old(self)@.root.flat().len() {
                old(self)@.root.toggled_at(old(self)@.line)
            } else {
                old(self)@.root
            },
            views_of(final(out)@) == views_of(old(out)@) + old(self)@.key_posts(key),
            all_wf(old(out)@) ==> all_wf(final(out)@),
    {
        let ghost start = self@;
        assert(views_of(old(out)@) + Seq::<RequestView>::empty() =~= views_of(old(out)@));
        match key {
            Key::Char(c) => {
                if c == 'j' {
                    if self.line < usize::MAX {
                        let target = self.line + 1;
                        if self.dir.map_line_child(target).is_some() {
                            self.line = target;
                        }
                    }
                } else if c == 'k' {
                    if self.line > 0 {
                        self.line -= 1;
                    }
                }
            },
            Key::Enter => {
                let mut request: Option<WindowRequest> = None;
                match self.dir.map_line_child(self.line) {
                    Some(item) => {
                        if !item.is_dir {
                            request = Some(WindowRequest::OpenFile(item.dir.clone()));
                        } else if !item.is_open {
                            request = Some(WindowRequest::ListDirectory(item.dir.clone()));
                        }
                    },
                    None => {},
                }
                let _ = self.dir.toggle_line(self.line);
                match request {
                    Some(request) => {
                        let ghost view = request@;
                        proof {
                            if all_wf(out@) {
                                crate::window::window::lemma_all_wf_push(out@, request);
                            }
                        }
                        out.push(request);
                        assert(views_of(out@) =~= views_of(old(out)@) + seq![view]);
                    },
                    None => {},
                }
            },
            _ => {},
        }
    }

    /// Whether `after` is this explorer after it took in `event`, and
    /// `out` the bus `into` after the explorer posted to it: the selection
    /// moves, the tree is toggled or opened, and what the event calls for
    /// is posted.
    pub open spec fn stepped(&self, event: WindowEvent, after: FSWindow, into: Bus, out: Bus) -> bool {
        &&& after@.poster == self@.poster
        &&& after@.root == self@.root_after(event)
        &&& after@.line == match event {
            WindowEvent::Input { key, .. } => self@.line_after(key),
            _ => self@.line,
        }
        &&& appended(into, out, posted_by(self@.poster, self@.posts(event)))
    }

    /// Take in `event` and post what it calls for to `bus`. A listing
    /// opens the directory it is of.
    pub fn event(&mut self, event: WindowEvent, bus: &mut Bus)
        ensures
            old(self).stepped(event, *final(self), *old(bus), *final(bus)),
            grown(*old(bus), *final(bus)),
    {
        let mut out: Vec<WindowRequest> = Vec::new();
        assert(views_of(out@) =~= Seq::<RequestView>::empty());
        let ghost start = self@;
        match event {
            WindowEvent::Input { key, modifiers } => {
                self.input(key, &mut out);
                assert(Seq::<RequestView>::empty() + start.key_posts(key) =~= start.key_posts(key));
            },
            WindowEvent::Listing { path, entries } => {
                let _ = self.dir.open_path(path.as_str(), entries);
            },
            _ => {},
        }
        let ghost early = views_of(out@);
        proof {
            crate::window::window::lemma_all_wf_push(out@, WindowRequest::Redraw);
        }
        out.push(WindowRequest::Redraw);
        assert(views_of(out@) =~= early.push(RequestView::Redraw));
        post_all(&self.poster, bus, out);
    }

    /// The canvas `v` with the lines of `bytes` from `from` on drawn onto
    /// it, a line to a row, the line number `selected` set off; `row` is
    /// the number of the line that begins at `from`.
    pub open spec fn lines_drawn(
        v: CanvasView,
        bytes: Seq<u8>,
        from: int,
        row: int,
        selected: int,
    ) -> CanvasView
        decreases bytes.len() - from,
    {
        if from < 0 || from > bytes.len() {
            v
        } else {
            let end = from + first_break(bytes.skip(from));
            let line = v.written(
                bytes.subrange(from, end),
                if row == selected {
                    seq![StyleAttribute::BgColor(ThemeColor::Yellow)]
                } else {
                    Seq::empty()
                },
                true,
            ).down();
            if end < from || end >= bytes.len() {
                line
            } else {
                Self::lines_drawn(
                    line,
                    bytes,
                    end + 1,
                    if row < usize::MAX {
                        row + 1
                    } else {
                        row
                    },
                    selected,
                )
            }
        }
    }

    /// The canvas `v` with the tree drawn onto it.
    pub open spec fn drawn(&self, v: CanvasView) -> CanvasView {
        Self::lines_drawn(v, encode_utf8(self@.root.rendered(Seq::empty())), 0, 0, self@.line)
    }

    /// Draw the tree, a line to a row, the selected line set off.
    pub fn draw(&self, canvas: &mut Canvas)
        requires
            old(canvas).wf(),
        ensures
            final(canvas).wf(),
            final(canvas)@ == self.drawn(old(canvas)@),
    {
        let text = self.dir.to_string();
        let cells = StyledText::new(text);
        let bytes = cells.get_cells();
        let ghost whole = bytes@;
        let ghost start = canvas@;
        let mut row: usize = 0;
        let mut from: usize = 0;
        let mut done = false;
        while !done
            invariant
                canvas.wf(),
                bytes@ == whole,
                from <= whole.len(),
                !done ==> Self::lines_drawn(start, whole, 0, 0, self.line as int)
                    == Self::lines_drawn(canvas@, whole, from as int, row as int, self.line as int),
                done ==> Self::lines_drawn(start, whole, 0, 0, self.line as int) == canvas@,
            decreases
                    if done {
                        0int
                    } else {
                        1int
                    },
                    whole.len() - from,
        {
            let mut end: usize = from;
            while end < bytes.len() && bytes[end] != 10u8
                invariant
                    from <= end <= bytes@.len(),
                    forall|i: int| from <= i < end ==> bytes@[i] != 10u8,
                decreases bytes@.len() - end,
            {
                end += 1;
            }
            proof {
                let rest = whole.skip(from as int);
                assert forall|i: int| 0 <= i < end - from implies rest[i] != LINE_BREAK by {
                    assert(rest[i] == whole[from + i]);
                }
                lemma_first_break_is(rest, end - from);
            }
            let mut line: Vec<u8> = Vec::new();
            let mut k: usize = from;
            while k < end
                invariant
                    from <= k <= end <= bytes@.len(),
                    line@ == bytes@.subrange(from as int, k as int),
                decreases end - k,
            {
                line.push(bytes[k]);
                k += 1;
                assert(line@ =~= bytes@.subrange(from as int, k as int));
            }
            let mut styled = StyledText::from_cells(line);
            if row == self.line {
                styled = styled.with(StyleAttribute::BgColor(ThemeColor::Yellow));
                assert(styled.attributes() =~= seq![StyleAttribute::BgColor(ThemeColor::Yellow)]);
            }
            canvas.write_wrap(&styled);
            let _ = canvas.to_next_line();
            if end >= bytes.len() {
                done = true;
            } else {
                if row < usize::MAX {
                    row += 1;
                }
                from = end + 1;
            }
        }
    }
}

} // verus!
