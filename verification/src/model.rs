//! The listing model: entries grouped in sections, with totals.
use vstd::prelude::*;

verus! {

/// A modification time as whole seconds since the Unix epoch (rounded
/// towards minus infinity) plus the nanoseconds within that second.
#[derive(Clone, Copy, Debug, PartialEq, Eq, Structural)]
pub struct Timestamp {
    pub secs: i64,
    pub nanos: u32,
}

#[derive(Debug, Clone, PartialEq, Eq)]
pub struct Listing {
    pub sections: Vec<Section>,
    pub summary: Summary,
    pub errors: Vec<String>,
}

#[derive(Debug, Clone, PartialEq, Eq)]
pub struct Section {
    pub path: String,
    pub entries: Vec<Entry>,
}

#[derive(Debug, Clone, PartialEq, Eq)]
pub struct Entry {
    pub path: String,
    pub name: String,
    pub kind: FileKind,
    pub size: u64,
    pub modified: Option<Timestamp>,
    pub sensitive: bool,
}

#[derive(Debug, Clone, Copy, PartialEq, Eq, Structural)]
pub enum FileKind {
    File,
    Directory,
    Symlink,
    BrokenSymlink,
    Executable,
    Other,
}

#[derive(Debug, Clone, Copy, PartialEq, Eq, Structural)]
pub struct Summary {
    pub files: usize,
    pub directories: usize,
    pub total_size: u64,
}

impl Default for Summary {
    fn default() -> (s: Self)
        ensures
            s.files == 0 && s.directories == 0 && s.total_size == 0,
    {
        Summary { files: 0, directories: 0, total_size: 0 }
    }
}

#[derive(Debug, Clone, PartialEq, Eq)]
pub struct ListingBuilder {
    pub sections: Vec<Section>,
    pub errors: Vec<String>,
}

impl Default for ListingBuilder {
    fn default() -> (b: Self)
        ensures
            b.sections@.len() == 0 && b.errors@.len() == 0,
    {
        ListingBuilder { sections: Vec::new(), errors: Vec::new() }
    }
}

/// All entries of the sections, section after section.
pub open spec fn section_entries(sections: Seq<Section>) -> Seq<Entry>
    decreases sections.len(),
{
    if sections.len() == 0 {
        Seq::empty()
    } else {
        section_entries(sections.drop_last()) + sections.last().entries@
    }
}

/// Number of entries that are not directories.
pub open spec fn file_count(entries: Seq<Entry>) -> nat
    decreases entries.len(),
{
    if entries.len() == 0 {
        0
    } else {
        file_count(entries.drop_last()) + if entries.last().kind == FileKind::Directory {
            0nat
        } else {
            1nat
        }
    }
}

/// Number of directory entries.
pub open spec fn directory_count(entries: Seq<Entry>) -> nat
    decreases entries.len(),
{
    if entries.len() == 0 {
        0
    } else {
        directory_count(entries.drop_last()) + if entries.last().kind == FileKind::Directory {
            1nat
        } else {
            0nat
        }
    }
}

/// Sum of the entry sizes.
pub open spec fn size_total(entries: Seq<Entry>) -> nat
    decreases entries.len(),
{
    if entries.len() == 0 {
        0
    } else {
        size_total(entries.drop_last()) + entries.last().size as nat
    }
}

/// The totals of `sections` fit the summary's integer types.
pub open spec fn summary_fits(sections: Seq<Section>) -> bool {
    &&& section_entries(sections).len() <= usize::MAX
    &&& size_total(section_entries(sections)) <= u64::MAX
}

/// `summary` holds the totals of `sections`.
pub open spec fn summarizes(summary: Summary, sections: Seq<Section>) -> bool {
    let entries = section_entries(sections);
    &&& summary.files == file_count(entries)
    &&& summary.directories == directory_count(entries)
    &&& summary.total_size == size_total(entries)
}

pub proof fn lemma_counts_cover_entries(entries: Seq<Entry>)
    ensures
        file_count(entries) + directory_count(entries) == entries.len(),
    decreases entries.len(),
{
    if entries.len() > 0 {
        lemma_counts_cover_entries(entries.drop_last());
    }
}

proof fn lemma_totals_grow(entries: Seq<Entry>, i: int)
    requires
        0 <= i <= entries.len(),
    ensures
        size_total(entries.take(i)) <= size_total(entries),
        file_count(entries.take(i)) <= file_count(entries),
        directory_count(entries.take(i)) <= directory_count(entries),
    decreases entries.len() - i,
{
    if i < entries.len() {
        lemma_totals_grow(entries, i + 1);
        assert(entries.take(i + 1).drop_last() =~= entries.take(i));
    } else {
        assert(entries.take(i) =~= entries);
    }
}

proof fn lemma_section_entries_grow(sections: Seq<Section>, i: int)
    requires
        0 <= i <= sections.len(),
    ensures
        section_entries(sections.take(i)).is_prefix_of(section_entries(sections)),
    decreases sections.len() - i,
{
    if i < sections.len() {
        lemma_section_entries_grow(sections, i + 1);
        assert(sections.take(i + 1).drop_last() =~= sections.take(i));
    } else {
        assert(sections.take(i) =~= sections);
    }
}

/// Every entry of the sections is counted exactly once, as a file or as a
/// directory.
pub proof fn summary_counts_every_entry(summary: Summary, sections: Seq<Section>)
    requires
        summarizes(summary, sections),
    ensures
        summary.files + summary.directories == section_entries(sections).len(),
{
    lemma_counts_cover_entries(section_entries(sections));
}

impl FileKind {
    /// Short label for the kind column of the table.
    pub fn label(self) -> (s: &'static str)
        ensures
            s@ == kind_label(self),
    {
        match self {
            FileKind::File => "F",
            FileKind::Directory => "D",
            FileKind::Symlink => "L",
            FileKind::BrokenSymlink => "LB",
            FileKind::Executable => "X",
            FileKind::Other => "O",
        }
    }

    /// Kind name used by the long table and the structured outputs.
    pub fn name(self) -> (s: &'static str)
        ensures
            s@ == kind_name(self),
    {
        match self {
            FileKind::File => "file",
            FileKind::Directory => "dir",
            FileKind::Symlink => "link",
            FileKind::BrokenSymlink => "link(broken)",
            FileKind::Executable => "exec",
            FileKind::Other => "other",
        }
    }
}

pub open spec fn kind_label(kind: FileKind) -> Seq<char> {
    match kind {
        FileKind::File => "F"@,
        FileKind::Directory => "D"@,
        FileKind::Symlink => "L"@,
        FileKind::BrokenSymlink => "LB"@,
        FileKind::Executable => "X"@,
        FileKind::Other => "O"@,
    }
}

pub open spec fn kind_name(kind: FileKind) -> Seq<char> {
    match kind {
        FileKind::File => "file"@,
        FileKind::Directory => "dir"@,
        FileKind::Symlink => "link"@,
        FileKind::BrokenSymlink => "link(broken)"@,
        FileKind::Executable => "exec"@,
        FileKind::Other => "other"@,
    }
}

/// Adds one entry to the running totals: directories on their own, every
/// other kind as a file; sizes of all kinds are summed.
fn add_entry_to_summary(entry: &Entry, summary: &mut Summary)
    requires
        old(summary).files + old(summary).directories < usize::MAX,
        old(summary).total_size + entry.size <= u64::MAX,
    ensures
        final(summary).files == old(summary).files + if entry.kind == FileKind::Directory {
            0nat
        } else {
            1nat
        },
        final(summary).directories == old(summary).directories + if entry.kind
            == FileKind::Directory {
            1nat
        } else {
            0nat
        },
        final(summary).total_size == old(summary).total_size + entry.size,
{
    if entry.kind == FileKind::Directory {
        summary.directories = summary.directories + 1;
    } else {
        summary.files = summary.files + 1;
    }
    summary.total_size = summary.total_size + entry.size;
}

/// Totals over every entry of every section.
pub fn summarize_sections(sections: &[Section]) -> (summary: Summary)
    requires
        summary_fits(sections@),
    ensures
        summarizes(summary, sections@),
{
    let mut summary = Summary::default();
    for i in 0..sections.len()
        invariant
            summary_fits(sections@),
            summarizes(summary, sections@.take(i as int)),
    {
        let entries = &sections[i].entries;
        let ghost before = section_entries(sections@.take(i as int));
        proof {
            assert(sections@.take(i + 1).drop_last() =~= sections@.take(i as int));
            assert(sections@.take(i + 1).last() == sections@[i as int]);
            lemma_section_entries_grow(sections@, i + 1);
            assert(entries@.take(0) =~= Seq::<Entry>::empty());
            assert(before + entries@.take(0) =~= before);
        }
        for j in 0..entries.len()
            invariant
                summary_fits(sections@),
                before == section_entries(sections@.take(i as int)),
                entries@ == sections@[i as int].entries@,
                i < sections@.len(),
                section_entries(sections@.take(i + 1)).is_prefix_of(section_entries(sections@)),
                section_entries(sections@.take(i + 1)) == before + entries@,
                summary.files == file_count(before + entries@.take(j as int)),
                summary.directories == directory_count(before + entries@.take(j as int)),
                summary.total_size == size_total(before + entries@.take(j as int)),
        {
            let ghost cur = before + entries@.take(j + 1);
            proof {
                assert(cur.drop_last() =~= before + entries@.take(j as int));
                assert(cur =~= (before + entries@).take(before.len() + j + 1));
                lemma_totals_grow(section_entries(sections@), before.len() + j + 1);
                assert((before + entries@) =~= section_entries(sections@).take(
                    (before + entries@).len() as int,
                ));
                assert(cur =~= section_entries(sections@).take(before.len() + j + 1));
                lemma_counts_cover_entries(section_entries(sections@));
                lemma_counts_cover_entries(cur);
                lemma_counts_cover_entries(cur.drop_last());
            }
            add_entry_to_summary(&entries[j], &mut summary);
        }
        proof {
            assert(entries@.take(entries@.len() as int) =~= entries@);
        }
    }
    proof {
        assert(sections@.take(sections@.len() as int) =~= sections@);
    }
    summary
}

/// Whether the totals of `sections` fit the summary's integer types.
pub fn totals_fit(sections: &[Section]) -> (b: bool)
    ensures
        b == summary_fits(sections@),
{
    let mut count: usize = 0;
    let mut total: u64 = 0;
    for i in 0..sections.len()
        invariant
            count == section_entries(sections@.take(i as int)).len(),
            total == size_total(section_entries(sections@.take(i as int))),
    {
        let entries = &sections[i].entries;
        let ghost before = section_entries(sections@.take(i as int));
        proof {
            assert(sections@.take(i + 1).drop_last() =~= sections@.take(i as int));
            assert(sections@.take(i + 1).last() == sections@[i as int]);
            lemma_section_entries_grow(sections@, i + 1);
            assert(entries@.take(0) =~= Seq::<Entry>::empty());
            assert(before + entries@.take(0) =~= before);
        }
        for j in 0..entries.len()
            invariant
                before == section_entries(sections@.take(i as int)),
                entries@ == sections@[i as int].entries@,
                i < sections@.len(),
                section_entries(sections@.take(i + 1)).is_prefix_of(section_entries(sections@)),
                section_entries(sections@.take(i + 1)) == before + entries@,
                count == (before + entries@.take(j as int)).len(),
                total == size_total(before + entries@.take(j as int)),
        {
            let ghost cur = before + entries@.take(j + 1);
            proof {
                assert(cur.drop_last() =~= before + entries@.take(j as int));
                assert(cur =~= (before + entries@).take(before.len() + j + 1));
                assert((before + entries@) =~= section_entries(sections@).take(
                    (before + entries@).len() as int,
                ));
                assert(cur =~= section_entries(sections@).take(before.len() + j + 1));
                lemma_totals_grow(section_entries(sections@), before.len() + j + 1);
            }
            if count == usize::MAX || total > u64::MAX - entries[j].size {
                return false;
            }
            count = count + 1;
            total = total + entries[j].size;
        }
        proof {
            assert(entries@.take(entries@.len() as int) =~= entries@);
        }
    }
    proof {
        assert(sections@.take(sections@.len() as int) =~= sections@);
    }
    true
}

impl ListingBuilder {
    /// Closes the collection: the sections and errors are kept as they are
    /// and the totals are computed from the sections.
    pub fn finish(self) -> (listing: Listing)
        requires
            summary_fits(self.sections@),
        ensures
            listing.sections@ == self.sections@,
            listing.errors@ == self.errors@,
            summarizes(listing.summary, self.sections@),
    {
        let summary = summarize_sections(self.sections.as_slice());
        Listing { sections: self.sections, summary, errors: self.errors }
    }
}

proof fn lemma_totals_add(x: Seq<Entry>, y: Seq<Entry>)
    ensures
        file_count(x + y) == file_count(x) + file_count(y),
        directory_count(x + y) == directory_count(x) + directory_count(y),
        size_total(x + y) == size_total(x) + size_total(y),
    decreases y.len(),
{
    if y.len() == 0 {
        assert(x + y =~= x);
    } else {
        lemma_totals_add(x, y.drop_last());
        assert((x + y).drop_last() =~= x + y.drop_last());
        assert((x + y).last() == y.last());
    }
}

proof fn lemma_section_entries_add(a: Seq<Section>, b: Seq<Section>)
    ensures
        section_entries(a + b) == section_entries(a) + section_entries(b),
    decreases b.len(),
{
    if b.len() == 0 {
        assert(a + b =~= a);
        assert(section_entries(a) + section_entries(b) =~= section_entries(a));
    } else {
        lemma_section_entries_add(a, b.drop_last());
        assert((a + b).drop_last() =~= a + b.drop_last());
        assert((a + b).last() == b.last());
        assert(section_entries(a) + (section_entries(b.drop_last()) + b.last().entries@)
            =~= section_entries(a) + section_entries(b.drop_last()) + b.last().entries@);
    }
}

/// No sections have all-zero totals.
pub proof fn empty_listings_total_nothing(summary: Summary)
    requires
        summarizes(summary, Seq::<Section>::empty()),
    ensures
        summary.files == 0 && summary.directories == 0 && summary.total_size == 0,
{
}

/// Totals add up: the totals of two runs of sections together are the sums
/// of their totals, whichever comes first.
pub proof fn totals_add_up(a: Seq<Section>, b: Seq<Section>, sa: Summary, sb: Summary, s: Summary)
    requires
        summarizes(sa, a),
        summarizes(sb, b),
        summarizes(s, a + b) || summarizes(s, b + a),
    ensures
        s.files == sa.files + sb.files,
        s.directories == sa.directories + sb.directories,
        s.total_size == sa.total_size + sb.total_size,
{
    lemma_section_entries_add(a, b);
    lemma_section_entries_add(b, a);
    lemma_totals_add(section_entries(a), section_entries(b));
    lemma_totals_add(section_entries(b), section_entries(a));
}

} // verus!
