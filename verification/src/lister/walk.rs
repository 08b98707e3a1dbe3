//! The stand-alone lister's walk over the paths it is given: which paths
//! and directories are read, in which order, and what each read adds to
//! the sections, the totals and the error messages.
//!
//! A [`Walk`] says what it needs next ([`Step`]); the caller reads the file
//! system, the clock and the user database and hands the plain results
//! back.
use vstd::prelude::*;
use crate::collect::display_name_text;
use crate::lister::entries::{
    descends, entry_kind, hidden_name, is_sensitive_name, is_visible_by_type, kind_from,
    kind_matches, path_name, paths_sorted, sensitive_name, should_recurse, should_skip_entry,
    skipped, sort_paths_by_name, summary_after, Entry, EntryKind, Section, Summary, TimeParts,
};
use crate::lister::ignore::{applying_patterns, debug_note, gitignore_rules_for, ignored_by_rules, is_ignored_by_gitignore, option_views, rule_views, rules_for};
use crate::lister::options::Config;
use crate::model::Timestamp;
use crate::text::{push_str, views};

verus! {

/// What was read of one path for its entry (metadata without following a
/// final link, what the clock and the user database say).
#[derive(Debug)]
pub struct EntryFacts {
    pub is_symlink: bool,
    /// For a link: whether its target exists.
    pub target_exists: bool,
    pub is_dir: bool,
    pub is_file: bool,
    pub mode: Option<u32>,
    pub len: u64,
    pub modified: Option<Timestamp>,
    pub local_time: Option<TimeParts>,
    pub links: Option<u64>,
    pub owner: Option<String>,
    pub group: Option<String>,
    pub git_state: Option<String>,
}

/// `e` is the entry for `path` with these facts.
pub open spec fn entry_for(e: Entry, path: Seq<char>, f: EntryFacts) -> bool {
    &&& e.path@ == path
    &&& e.name@ == display_name_text(path)
    &&& e.kind == kind_from(f.is_symlink, f.target_exists, f.is_dir, f.is_file, f.mode)
    &&& e.size == Some(f.len)
    &&& e.modified == f.modified
    &&& e.local_time == f.local_time
    &&& e.mode == f.mode
    &&& e.links == f.links
    &&& e.owner == f.owner
    &&& e.group == f.group
    &&& e.sensitive == sensitive_name(display_name_text(path))
    &&& e.git_state == f.git_state
}

/// The entry for a path and what was read of it.
pub fn entry_from_facts(path: &String, f: EntryFacts) -> (e: Entry)
    ensures
        entry_for(e, path@, f),
{
    let name = path_name(path);
    let sensitive = is_sensitive_name(name.as_str());
    let kind = entry_kind(f.is_symlink, f.target_exists, f.is_dir, f.is_file, f.mode);
    Entry {
        path: crate::text::clone_string(path),
        name,
        kind,
        size: Some(f.len),
        modified: f.modified,
        local_time: f.local_time,
        mode: f.mode,
        links: f.links,
        owner: f.owner,
        group: f.group,
        sensitive,
        git_state: f.git_state,
    }
}

/// What inspecting a command-line path gave: whether it is a directory
/// (without following a final link) and, when its entry could be read,
/// the facts for it.
#[derive(Debug)]
pub struct PathFacts {
    pub is_dir: bool,
    pub entry: Option<EntryFacts>,
}

/// The ignore files that apply to an item: the directories above it
/// (outermost first), the text of each one's `.gitignore` where it has
/// one, the `path: error` texts of those that could not be read, and
/// whether the item is a directory (following links).
#[derive(Debug)]
pub struct IgnoreFacts {
    pub is_dir: bool,
    pub dirs: Vec<String>,
    pub contents: Vec<Option<String>>,
    pub read_errors: Vec<String>,
}

/// One item of a directory: its path and name, its ignore files (read
/// only when the options consult them) and its entry's facts (none when
/// they could not be read).
#[derive(Debug)]
pub struct ItemFacts {
    pub path: String,
    pub name: String,
    pub ignore: Option<IgnoreFacts>,
    pub entry: Option<EntryFacts>,
}

/// What the walk needs next.
#[derive(Debug, Clone, PartialEq, Eq)]
pub enum Step {
    /// The metadata of a command-line path.
    Inspect(String),
    /// The items of a directory, `depth` levels below a command-line path.
    ReadDirectory { path: String, depth: usize },
    /// Nothing: every path was listed.
    Finished,
}

/// A directory waiting to be read.
#[derive(Debug, Clone)]
pub struct Waiting {
    pub path: String,
    pub depth: usize,
}

/// The state of the walk: the next command-line path, the directories
/// waiting (the next one last), and what was gathered: sections, totals,
/// whether anything failed, and the lines for standard error.
pub struct Walk {
    pub config: Config,
    pub next_path: usize,
    pub pending: Vec<Waiting>,
    pub sections: Vec<Section>,
    pub summary: Summary,
    pub had_error: bool,
    pub messages: Vec<String>,
}

/// Whether the ignore files are consulted: with `--all` but not
/// `--whole-all`.
pub open spec fn consults_ignore(c: Config) -> bool {
    c.show_all && !c.whole_all
}

/// Whether the ignore files are read for the items of a directory.
pub fn consults_ignore_files(config: &Config) -> (b: bool)
    ensures
        b == consults_ignore(*config),
{
    config.show_all && !config.whole_all
}

/// Whether an item's ignore files hide it.
pub open spec fn item_ignored(item: ItemFacts) -> bool {
    match item.ignore {
        Some(g) => ignored_by_rules(
            rules_for(views(g.dirs@), option_views(g.contents@)),
            item.path@,
            g.is_dir,
        ),
        None => false,
    }
}

/// The standard-error lines consulting an item's ignore files gives: the
/// files that could not be read, then with `--debug` one note per rule
/// that applies.
pub open spec fn ignore_messages(item: ItemFacts, c: Config) -> Seq<Seq<char>> {
    match item.ignore {
        Some(g) => if consults_ignore(c) {
            views(g.read_errors@).map_values(|e: Seq<char>| "lsef: "@ + e) + if c.debug {
                applying_patterns(
                    rules_for(views(g.dirs@), option_views(g.contents@)),
                    item.path@,
                    g.is_dir,
                ).map_values(|p: Seq<char>| debug_note(p, item.path@))
            } else {
                Seq::empty()
            }
        } else {
            Seq::empty()
        },
        None => Seq::empty(),
    }
}

/// Whether an item is left out before its entry is looked at.
pub open spec fn item_skipped(item: ItemFacts, c: Config) -> bool {
    skipped(item.name@, c.show_all, c.whole_all, item_ignored(item))
}

/// Whether an item's entry is shown.
pub open spec fn item_shown(item: ItemFacts, c: Config) -> bool {
    &&& !item_skipped(item, c)
    &&& item.entry is Some
    &&& match c.type_filter {
        Some(f) => kind_matches(item_kind(item), f),
        None => true,
    }
}

pub open spec fn item_kind(item: ItemFacts) -> EntryKind {
    match item.entry {
        Some(f) => kind_from(f.is_symlink, f.target_exists, f.is_dir, f.is_file, f.mode),
        None => EntryKind::Other,
    }
}

/// The item is a directory to visit later (shown or not).
pub open spec fn item_is_subdir(item: ItemFacts, c: Config) -> bool {
    !item_skipped(item, c) && item.entry is Some && item_kind(item) == EntryKind::Dir
}

/// The standard-error lines one item gives.
pub open spec fn item_messages(item: Result<ItemFacts, String>, dir: Seq<char>, c: Config) -> Seq<
    Seq<char>,
> {
    match item {
        Err(message) => seq!["lsef: "@ + dir + ": "@ + message@],
        Ok(it) => ignore_messages(it, c) + if !item_skipped(it, c) && it.entry is None {
            seq!["lsef: "@ + it.path@ + ": could not read metadata"@]
        } else {
            Seq::empty()
        },
    }
}

/// Whether one item counts as a failure.
pub open spec fn item_failed(item: Result<ItemFacts, String>, c: Config) -> bool {
    match item {
        Err(_) => true,
        Ok(it) => !item_skipped(it, c) && it.entry is None,
    }
}

pub open spec fn items_messages(items: Seq<Result<ItemFacts, String>>, dir: Seq<char>, c: Config) -> Seq<
    Seq<char>,
>
    decreases items.len(),
{
    if items.len() == 0 {
        Seq::empty()
    } else {
        items_messages(items.drop_last(), dir, c) + item_messages(items.last(), dir, c)
    }
}

pub open spec fn items_failed(items: Seq<Result<ItemFacts, String>>, c: Config) -> bool
    decreases items.len(),
{
    if items.len() == 0 {
        false
    } else {
        items_failed(items.drop_last(), c) || item_failed(items.last(), c)
    }
}

/// The totals after counting the shown entries of the items.
pub open spec fn items_summary(s: Summary, items: Seq<Result<ItemFacts, String>>, c: Config) -> Summary
    decreases items.len(),
{
    if items.len() == 0 {
        s
    } else {
        let prev = items_summary(s, items.drop_last(), c);
        match items.last() {
            Ok(it) => if item_shown(it, c) {
                summary_after(prev, item_kind(it), Some(it.entry->Some_0.len))
            } else {
                prev
            },
            Err(_) => prev,
        }
    }
}

/// `es` are the entries of the shown items, in order.
pub open spec fn shown_entries(es: Seq<Entry>, items: Seq<Result<ItemFacts, String>>, c: Config) -> bool
    decreases items.len(),
{
    if items.len() == 0 {
        es.len() == 0
    } else {
        match items.last() {
            Ok(it) => if item_shown(it, c) {
                &&& es.len() > 0
                &&& entry_for(es.last(), it.path@, it.entry->Some_0)
                &&& shown_entries(es.drop_last(), items.drop_last(), c)
            } else {
                shown_entries(es, items.drop_last(), c)
            },
            Err(_) => shown_entries(es, items.drop_last(), c),
        }
    }
}

/// The paths of the items that are directories to visit, in order.
pub open spec fn subdir_paths(items: Seq<Result<ItemFacts, String>>, c: Config) -> Seq<Seq<char>>
    decreases items.len(),
{
    if items.len() == 0 {
        Seq::empty()
    } else {
        let prev = subdir_paths(items.drop_last(), c);
        match items.last() {
            Ok(it) => if item_is_subdir(it, c) {
                prev.push(it.path@)
            } else {
                prev
            },
            Err(_) => prev,
        }
    }
}

/// Room in the totals for `n` more entries.
pub open spec fn room_for(s: Summary, n: nat) -> bool {
    s.files + n < usize::MAX && s.dirs + n < usize::MAX && s.links + n < usize::MAX && s.others
        + n < usize::MAX
}

/// The ignore facts of every item line up their directories and texts.
pub open spec fn ignore_facts_aligned(items: Seq<Result<ItemFacts, String>>) -> bool {
    forall|k: int|
        0 <= k < items.len() ==> match #[trigger] items[k] {
            Ok(it) => match it.ignore {
                Some(g) => g.dirs@.len() == g.contents@.len(),
                None => true,
            },
            Err(_) => true,
        }
}

pub open spec fn waiting_views(v: Seq<Waiting>) -> Seq<(Seq<char>, nat)> {
    v.map_values(|w: Waiting| (w.path@, w.depth as nat))
}

impl Walk {
    /// Every waiting directory lies at a depth the options allow.
    pub open spec fn wf(&self) -> bool {
        &&& self.next_path <= self.config.paths@.len()
        &&& forall|i: int|
            0 <= i < self.pending@.len() ==> {
                let d = #[trigger] self.pending@[i].depth;
                d == 0 || (self.config.recursive && match self.config.max_depth {
                    Some(m) => d <= m,
                    None => true,
                })
            }
    }

    /// A walk that has read nothing yet.
    pub fn new(config: Config) -> (w: Walk)
        ensures
            w.wf(),
            w.config == config,
            w.next_path == 0,
            w.pending@.len() == 0,
            w.sections@.len() == 0,
            w.summary == (Summary { files: 0, dirs: 0, links: 0, others: 0, bytes: 0 }),
            !w.had_error,
            w.messages@.len() == 0,
    {
        Walk {
            config,
            next_path: 0,
            pending: Vec::new(),
            sections: Vec::new(),
            summary: Summary::default(),
            had_error: false,
            messages: Vec::new(),
        }
    }

    /// What to read next: the directory on top of the stack, else the next
    /// command-line path, else nothing.
    pub fn step(&self) -> (r: Step)
        ensures
            self.pending@.len() > 0 ==> (r matches Step::ReadDirectory { path, depth } && path@
                == self.pending@.last().path@ && depth == self.pending@.last().depth),
            self.pending@.len() == 0 && self.next_path < self.config.paths@.len() ==> (r matches Step::Inspect(
                p,
            ) && p@ == self.config.paths@[self.next_path as int]@),
            self.pending@.len() == 0 && self.next_path >= self.config.paths@.len() ==> r
                is Finished,
    {
        if self.pending.len() > 0 {
            let top = &self.pending[self.pending.len() - 1];
            return Step::ReadDirectory {
                path: crate::text::clone_string(&top.path),
                depth: top.depth,
            };
        }
        if self.next_path < self.config.paths.len() {
            return Step::Inspect(crate::text::clone_string(&self.config.paths[self.next_path]));
        }
        Step::Finished
    }

    /// Takes what inspecting the next command-line path gave: a directory
    /// waits to be read; anything else is listed in a section titled by the
    /// path when its entry could be read and the type filter lets it
    /// through; a failure is reported as `lsef: path: message`.
    pub fn inspect(&mut self, reply: Result<PathFacts, String>)
        requires
            old(self).wf(),
            old(self).pending@.len() == 0,
            old(self).next_path < old(self).config.paths@.len(),
            room_for(old(self).summary, 1),
        ensures
            final(self).wf(),
            final(self).config == old(self).config,
            final(self).next_path == old(self).next_path + 1,
            ({
                let path = old(self).config.paths@[old(self).next_path as int]@;
                let c = old(self).config;
                match reply {
                    Err(message) => {
                        &&& final(self).had_error
                        &&& views(final(self).messages@) == views(old(self).messages@).push(
                            "lsef: "@ + path + ": "@ + message@,
                        )
                        &&& final(self).sections@ == old(self).sections@
                        &&& final(self).summary == old(self).summary
                        &&& final(self).pending@.len() == 0
                    },
                    Ok(facts) => {
                        &&& final(self).had_error == old(self).had_error
                        &&& final(self).messages@ == old(self).messages@
                        &&& if facts.is_dir {
                            &&& waiting_views(final(self).pending@) == seq![(path, 0nat)]
                            &&& final(self).sections@ == old(self).sections@
                            &&& final(self).summary == old(self).summary
                        } else {
                            &&& final(self).pending@.len() == 0
                            &&& match facts.entry {
                                Some(f) => {
                                    let kind = kind_from(
                                        f.is_symlink,
                                        f.target_exists,
                                        f.is_dir,
                                        f.is_file,
                                        f.mode,
                                    );
                                    if match c.type_filter {
                                        Some(t) => kind_matches(kind, t),
                                        None => true,
                                    } {
                                        &&& final(self).sections@.len() == old(self).sections@.len()
                                            + 1
                                        &&& final(self).sections@.drop_last() == old(self).sections@
                                        &&& final(self).sections@.last().title matches Some(t)
                                            && t@ == path
                                        &&& final(self).sections@.last().entries@.len() == 1
                                        &&& entry_for(
                                            final(self).sections@.last().entries@[0],
                                            path,
                                            f,
                                        )
                                        &&& final(self).summary == summary_after(
                                            old(self).summary,
                                            kind,
                                            Some(f.len),
                                        )
                                    } else {
                                        &&& final(self).sections@ == old(self).sections@
                                        &&& final(self).summary == old(self).summary
                                    }
                                },
                                None => {
                                    &&& final(self).sections@ == old(self).sections@
                                    &&& final(self).summary == old(self).summary
                                },
                            }
                        }
                    },
                }
            }),
    {
        let index = self.next_path;
        let total = self.config.paths.len();
        assert(index < total);
        self.next_path = index + 1;
        let path = crate::text::clone_string(&self.config.paths[index]);
        match reply {
            Err(message) => {
                self.had_error = true;
                let ghost before = views(self.messages@);
                let mut text = String::from_str("lsef: ");
                push_str(&mut text, path.as_str());
                push_str(&mut text, ": ");
                push_str(&mut text, message.as_str());
                proof {
                    reveal_strlit("lsef: ");
                }
                self.messages.push(text);
                assert(views(self.messages@) =~= before.push(
                    "lsef: "@ + path@ + ": "@ + message@,
                ));
            },
            Ok(facts) => {
                if facts.is_dir {
                    self.pending.push(Waiting { path, depth: 0 });
                    assert(waiting_views(self.pending@) =~= seq![
                        (self.config.paths@[index as int]@, 0nat),
                    ]);
                } else {
                    match facts.entry {
                        Some(f) => {
                            let ghost facts_seen = f;
                            let entry = entry_from_facts(&path, f);
                            if is_visible_by_type(&entry, &self.config) {
                                self.summary.add(&entry);
                                let ghost e = entry;
                                self.sections.push(Section { title: Some(path), entries: vec![entry] });
                                assert(self.sections@.last().entries@[0] == e);
                            }
                        },
                        None => {},
                    }
                }
            },
        }
    }

    /// Takes what reading the directory on top of the stack gave. A
    /// directory that cannot be read is reported and listed as an empty
    /// section. Otherwise each item is reported when it cannot be read,
    /// skipped when hidden (or ignored, when the ignore files are
    /// consulted), reported when its metadata cannot be read, and else
    /// shown when the type filter lets it through; its subdirectories
    /// wait to be read by name when the options descend below its depth.
    pub fn read_directory(&mut self, reply: Result<Vec<Result<ItemFacts, String>>, String>)
        requires
            old(self).wf(),
            old(self).pending@.len() > 0,
            old(self).pending@.last().depth < usize::MAX,
            match reply {
                Ok(items) => room_for(old(self).summary, items@.len()) && ignore_facts_aligned(
                    items@,
                ),
                Err(_) => true,
            },
        ensures
            final(self).wf(),
            final(self).config == old(self).config,
            final(self).next_path == old(self).next_path,
            final(self).sections@.len() == old(self).sections@.len() + 1,
            final(self).sections@.drop_last() == old(self).sections@,
            final(self).sections@.last().title matches Some(t) && t@
                == old(self).pending@.last().path@,
            ({
                let dir = old(self).pending@.last();
                let rest = waiting_views(old(self).pending@.drop_last());
                let c = old(self).config;
                let section = final(self).sections@.last();
                match reply {
                    Err(message) => {
                        &&& final(self).had_error
                        &&& views(final(self).messages@) == views(old(self).messages@).push(
                            "lsef: "@ + dir.path@ + ": "@ + message@,
                        )
                        &&& section.entries@.len() == 0
                        &&& final(self).summary == old(self).summary
                        &&& waiting_views(final(self).pending@) == rest
                    },
                    Ok(items) => {
                        &&& final(self).had_error == (old(self).had_error || items_failed(
                            items@,
                            c,
                        ))
                        &&& views(final(self).messages@) == views(old(self).messages@)
                            + items_messages(items@, dir.path@, c)
                        &&& shown_entries(section.entries@, items@, c)
                        &&& final(self).summary == items_summary(old(self).summary, items@, c)
                        &&& if descends(c.recursive, c.max_depth, dir.depth as nat) {
                            let pushed = final(self).pending@.skip(rest.len() as int);
                            &&& waiting_views(final(self).pending@.take(rest.len() as int))
                                == rest
                            &&& pushed.len() == subdir_paths(items@, c).len()
                            &&& forall|k: int|
                                0 <= k < pushed.len() ==> (#[trigger] pushed[k]).depth == dir.depth
                                    + 1
                            &&& paths_sorted(
                                pushed.map_values(|w: Waiting| w.path).reverse(),
                            )
                            &&& views(pushed.map_values(|w: Waiting| w.path).reverse()).to_multiset()
                                == subdir_paths(items@, c).to_multiset()
                        } else {
                            waiting_views(final(self).pending@) == rest
                        }
                    },
                }
            }),
    {
        let dir = self.pending.pop().unwrap();
        let ghost rest = self.pending@;
        proof {
            assert(waiting_views(rest) =~= waiting_views(old(self).pending@.drop_last()));
        }
        let items = match reply {
            Err(message) => {
                self.had_error = true;
                let ghost before = views(self.messages@);
                let mut text = String::from_str("lsef: ");
                push_str(&mut text, dir.path.as_str());
                push_str(&mut text, ": ");
                push_str(&mut text, message.as_str());
                proof {
                    reveal_strlit("lsef: ");
                }
                self.messages.push(text);
                assert(views(self.messages@) =~= before.push(
                    "lsef: "@ + dir.path@ + ": "@ + message@,
                ));
                self.sections.push(Section { title: Some(dir.path), entries: Vec::new() });
                return;
            },
            Ok(items) => items,
        };
        let ghost all = items@;
        let ghost start_messages = views(self.messages@);
        let ghost start_summary = self.summary;
        let ghost start_error = self.had_error;
        let mut entries: Vec<Entry> = Vec::new();
        let mut subdirs: Vec<String> = Vec::new();
        for item in it: items.into_iter()
            invariant
                it.seq() == all,
                self.wf(),
                self.config == old(self).config,
                self.next_path == old(self).next_path,
                self.pending@ == rest,
                self.sections@ == old(self).sections@,
                room_for(start_summary, all.len()),
                ignore_facts_aligned(all),
                room_for(self.summary, (all.len() - it.index()) as nat),
                views(self.messages@) == start_messages + items_messages(
                    all.take(it.index() as int),
                    dir.path@,
                    self.config,
                ),
                self.had_error == (start_error || items_failed(
                    all.take(it.index() as int),
                    self.config,
                )),
                self.summary == items_summary(start_summary, all.take(it.index() as int), self.config),
                shown_entries(entries@, all.take(it.index() as int), self.config),
                views(subdirs@) == subdir_paths(all.take(it.index() as int), self.config),
        {
            let ghost k = it.index() as int;
            proof {
                assert(all.take(k + 1).drop_last() =~= all.take(k));
                assert(all.take(k + 1).last() == item);
                assert(all[k] == item);
            }
            self.collect_dir_item(item, &dir.path, &mut entries, &mut subdirs);
        }
        proof {
            assert(all.take(all.len() as int) =~= all);
        }
        let ghost shown = entries@;
        self.sections.push(Section { title: Some(dir.path), entries });
        assert(self.sections@.last().entries@ == shown);
        self.collect_child_dirs(subdirs, dir.depth);
    }

    /// One item of the directory `dir`.
    fn collect_dir_item(
        &mut self,
        item: Result<ItemFacts, String>,
        dir: &String,
        entries: &mut Vec<Entry>,
        subdirs: &mut Vec<String>,
    )
        requires
            room_for(old(self).summary, 1),
            match item {
                Ok(it) => match it.ignore {
                    Some(g) => g.dirs@.len() == g.contents@.len(),
                    None => true,
                },
                Err(_) => true,
            },
        ensures
            final(self).config == old(self).config,
            final(self).next_path == old(self).next_path,
            final(self).pending@ == old(self).pending@,
            final(self).sections@ == old(self).sections@,
            views(final(self).messages@) == views(old(self).messages@) + item_messages(
                item,
                dir@,
                old(self).config,
            ),
            final(self).had_error == (old(self).had_error || item_failed(item, old(self).config)),
            final(self).summary == match item {
                Ok(it) => if item_shown(it, old(self).config) {
                    summary_after(old(self).summary, item_kind(it), Some(it.entry->Some_0.len))
                } else {
                    old(self).summary
                },
                Err(_) => old(self).summary,
            },
            match item {
                Ok(it) => if item_shown(it, old(self).config) {
                    &&& final(entries)@.len() == old(entries)@.len() + 1
                    &&& final(entries)@.drop_last() == old(entries)@
                    &&& entry_for(final(entries)@.last(), it.path@, it.entry->Some_0)
                } else {
                    final(entries)@ == old(entries)@
                },
                Err(_) => final(entries)@ == old(entries)@,
            },
            views(final(subdirs)@) == match item {
                Ok(it) => if item_is_subdir(it, old(self).config) {
                    views(old(subdirs)@).push(it.path@)
                } else {
                    views(old(subdirs)@)
                },
                Err(_) => views(old(subdirs)@),
            },
    {
        let ghost start_messages = views(self.messages@);
        let it = match item {
            Ok(it) => it,
            Err(message) => {
                self.had_error = true;
                let mut text = String::from_str("lsef: ");
                push_str(&mut text, dir.as_str());
                push_str(&mut text, ": ");
                push_str(&mut text, message.as_str());
                proof {
                    reveal_strlit("lsef: ");
                }
                self.messages.push(text);
                assert(views(self.messages@) =~= start_messages + item_messages(
                    item,
                    dir@,
                    self.config,
                ));
                return;
            },
        };
        let ghost item_view = it;
        let ignored = self.consult_ignore(&it);
        assert(ignored == (consults_ignore(self.config) && item_ignored(item_view)));
        assert(item == Ok::<ItemFacts, String>(item_view));
        if should_skip_entry(it.name.as_str(), &self.config, ignored) {
            assert(item_skipped(item_view, self.config));
            assert(item_messages(item, dir@, self.config) =~= ignore_messages(
                item_view,
                self.config,
            ));
            assert(views(self.messages@) =~= start_messages + item_messages(
                item,
                dir@,
                self.config,
            ));
            return;
        }
        assert(!item_skipped(item_view, self.config));
        let ghost after_ignore = views(self.messages@);
        let f = match it.entry {
            Some(f) => f,
            None => {
                self.had_error = true;
                let mut text = String::from_str("lsef: ");
                push_str(&mut text, it.path.as_str());
                push_str(&mut text, ": could not read metadata");
                proof {
                    reveal_strlit("lsef: ");
                }
                assert(text@ == "lsef: "@ + item_view.path@ + ": could not read metadata"@);
                let ghost before_push = views(self.messages@);
                assert(before_push == start_messages + ignore_messages(item_view, self.config));
                self.messages.push(text);
                assert(views(self.messages@) =~= before_push.push(
                    "lsef: "@ + item_view.path@ + ": could not read metadata"@,
                ));
                assert(item_messages(item, dir@, self.config) =~= ignore_messages(
                    item_view,
                    self.config,
                ) + seq!["lsef: "@ + item_view.path@ + ": could not read metadata"@]);
                assert(views(self.messages@) =~= start_messages + item_messages(
                    item,
                    dir@,
                    self.config,
                ));
                return;
            },
        };
        assert(views(self.messages@) =~= start_messages + item_messages(item, dir@, self.config));
        let entry = entry_from_facts(&it.path, f);
        let is_dir = entry.kind == EntryKind::Dir;
        if is_visible_by_type(&entry, &self.config) {
            self.summary.add(&entry);
            entries.push(entry);
        }
        if is_dir {
            let ghost before = views(subdirs@);
            subdirs.push(it.path);
            assert(views(subdirs@) =~= before.push(item_view.path@));
        }
    }

    /// Consults an item's ignore files when the options ask for it,
    /// reporting what consulting them gives; whether they hide the item.
    fn consult_ignore(&mut self, it: &ItemFacts) -> (ignored: bool)
        requires
            match it.ignore {
                Some(g) => g.dirs@.len() == g.contents@.len(),
                None => true,
            },
        ensures
            ignored == (consults_ignore(old(self).config) && item_ignored(*it)),
            views(final(self).messages@) == views(old(self).messages@) + ignore_messages(
                *it,
                old(self).config,
            ),
            final(self).config == old(self).config,
            final(self).next_path == old(self).next_path,
            final(self).pending@ == old(self).pending@,
            final(self).sections@ == old(self).sections@,
            final(self).summary == old(self).summary,
            final(self).had_error == old(self).had_error,
    {
        let ghost start = views(self.messages@);
        if !(self.config.show_all && !self.config.whole_all) {
            assert(views(self.messages@) =~= start + ignore_messages(*it, self.config));
            return false;
        }
        let g = match &it.ignore {
            Some(g) => g,
            None => {
                assert(views(self.messages@) =~= start + ignore_messages(*it, self.config));
                return false;
            },
        };
        for i in 0..g.read_errors.len()
            invariant
                views(self.messages@) == start + views(g.read_errors@).take(i as int).map_values(
                    |e: Seq<char>| "lsef: "@ + e,
                ),
                self.config == old(self).config,
                self.next_path == old(self).next_path,
                self.pending@ == old(self).pending@,
                self.sections@ == old(self).sections@,
                self.summary == old(self).summary,
                self.had_error == old(self).had_error,
        {
            let ghost before = views(self.messages@);
            let mut text = String::from_str("lsef: ");
            push_str(&mut text, g.read_errors[i].as_str());
            proof {
                reveal_strlit("lsef: ");
            }
            self.messages.push(text);
            assert(views(self.messages@) =~= before.push("lsef: "@ + g.read_errors@[i as int]@));
            assert(views(g.read_errors@).take(i + 1).map_values(|e: Seq<char>| "lsef: "@ + e)
                =~= views(g.read_errors@).take(i as int).map_values(|e: Seq<char>| "lsef: "@ + e).push(
                "lsef: "@ + g.read_errors@[i as int]@,
            ));
        }
        assert(views(g.read_errors@).take(g.read_errors.len() as int) =~= views(g.read_errors@));
        let rules = gitignore_rules_for(&g.dirs, &g.contents);
        let (ignored, notes) = is_ignored_by_gitignore(&rules, &it.path, g.is_dir, self.config.debug);
        let ghost before_notes = views(self.messages@);
        let ghost all_notes = views(notes@);
        for i in 0..notes.len()
            invariant
                all_notes == views(notes@),
                views(self.messages@) == before_notes + all_notes.take(i as int),
                self.config == old(self).config,
                self.next_path == old(self).next_path,
                self.pending@ == old(self).pending@,
                self.sections@ == old(self).sections@,
                self.summary == old(self).summary,
                self.had_error == old(self).had_error,
        {
            let ghost before = views(self.messages@);
            self.messages.push(crate::text::clone_string(&notes[i]));
            assert(views(self.messages@) =~= before.push(all_notes[i as int]));
            assert(all_notes.take(i + 1) =~= all_notes.take(i as int).push(all_notes[i as int]));
        }
        assert(all_notes.take(notes.len() as int) =~= all_notes);
        assert(views(self.messages@) =~= start + ignore_messages(*it, self.config));
        ignored
    }

    /// Subdirectories wait to be read, sorted by name with the first on
    /// top, when the options descend below `depth`.
    fn collect_child_dirs(&mut self, subdirs: Vec<String>, depth: usize)
        requires
            old(self).wf(),
            depth < usize::MAX,
            depth == 0 || (old(self).config.recursive && match old(self).config.max_depth {
                Some(m) => depth <= m,
                None => true,
            }),
        ensures
            final(self).wf(),
            final(self).config == old(self).config,
            final(self).next_path == old(self).next_path,
            final(self).sections@ == old(self).sections@,
            final(self).summary == old(self).summary,
            final(self).had_error == old(self).had_error,
            final(self).messages@ == old(self).messages@,
            if descends(old(self).config.recursive, old(self).config.max_depth, depth as nat) {
                let start = old(self).pending@.len() as int;
                let pushed = final(self).pending@.skip(start);
                &&& final(self).pending@.take(start) == old(self).pending@
                &&& pushed.len() == subdirs@.len()
                &&& forall|k: int| 0 <= k < pushed.len() ==> (#[trigger] pushed[k]).depth == depth + 1
                &&& paths_sorted(pushed.map_values(|w: Waiting| w.path).reverse())
                &&& views(pushed.map_values(|w: Waiting| w.path).reverse()).to_multiset() == views(
                    subdirs@,
                ).to_multiset()
            } else {
                final(self).pending@ == old(self).pending@
            },
    {
        if !should_recurse(&self.config, depth) {
            return;
        }
        let mut sorted = subdirs;
        let ghost unsorted = sorted@;
        sort_paths_by_name(&mut sorted);
        let ghost order = sorted@;
        let ghost start = self.pending@;
        let n = sorted.len();
        while sorted.len() > 0
            invariant
                self.wf(),
                self.config == old(self).config,
                self.next_path == old(self).next_path,
                self.sections@ == old(self).sections@,
                self.summary == old(self).summary,
                self.had_error == old(self).had_error,
                self.messages@ == old(self).messages@,
                start == old(self).pending@,
                depth < usize::MAX,
                descends(self.config.recursive, self.config.max_depth, depth as nat),
                sorted@.len() <= n,
                order.len() == n,
                sorted@ == order.take(sorted@.len() as int),
                self.pending@.take(start.len() as int) == start,
                self.pending@.len() == start.len() + (n - sorted@.len()),
                forall|k: int|
                    start.len() <= k < self.pending@.len() ==> (#[trigger] self.pending@[k]).depth
                        == depth + 1 && self.pending@[k].path == order[n - 1 - (k - start.len())],
            decreases sorted.len(),
        {
            let ghost m = sorted@.len();
            let path = sorted.pop().unwrap();
            assert(path == order[m - 1]);
            self.pending.push(Waiting { path, depth: depth + 1 });
            assert(self.pending@.take(start.len() as int) =~= start);
            assert(sorted@ =~= order.take(m - 1));
        }
        let ghost pushed = self.pending@.skip(start.len() as int);
        assert(pushed.map_values(|w: Waiting| w.path).reverse() =~= order);
        proof {
            crate::text::lemma_views_permutation(order, unsorted);
            vstd::seq_lib::to_multiset_len(order);
            vstd::seq_lib::to_multiset_len(unsorted);
            assert(pushed.len() == n);
            assert forall|k: int| 0 <= k < pushed.len() implies (#[trigger] pushed[k]).depth
                == depth + 1 by {
                assert(pushed[k] == self.pending@[start.len() + k]);
            }
        }
    }

    /// The sections, totals, failure flag and messages gathered.
    pub fn finish(self) -> (r: (Vec<Section>, Summary, bool, Vec<String>))
        ensures
            r.0@ == self.sections@,
            r.1 == self.summary,
            r.2 == self.had_error,
            r.3@ == self.messages@,
    {
        (self.sections, self.summary, self.had_error, self.messages)
    }
}

/// Room in the totals for the entries of a directory's items.
pub fn has_room(summary: &Summary, n: usize) -> (b: bool)
    ensures
        b == room_for(*summary, n as nat),
{
    let m = usize::MAX;
    summary.files < m - n && summary.dirs < m - n && summary.links < m - n && summary.others
        < m - n && n < m
}

/// A walk never has a directory waiting below `--max-depth`, nor below a
/// command-line path at all without `--recursive`.
pub proof fn waiting_directories_respect_the_depth_limit(w: Walk)
    requires
        w.wf(),
    ensures
        forall|i: int|
            0 <= i < w.pending@.len() ==> match w.config.max_depth {
                Some(m) => #[trigger] w.pending@[i].depth <= m,
                None => true,
            },
        !w.config.recursive ==> forall|i: int|
            0 <= i < w.pending@.len() ==> #[trigger] w.pending@[i].depth == 0,
{
}

} // verus!
