//! Check mode: compare the digests a manifest recorded with digests computed
//! now, and report the entries that changed.
use vstd::prelude::*;
use crate::text::strings_view;
use crate::manifest::{ManifestEntry, ManifestEntryView, manifest_entries_view};

verus! {

/// The digest text that stands for a file that cannot be opened.
pub open spec fn deleted_marker() -> Seq<char> {
    "deleted"@
}

/// The digest text of a file that cannot be opened: `deleted`.
pub fn unreadable_digest() -> (r: String)
    ensures
        r@ == deleted_marker(),
{
    String::from_str("deleted")
}

/// An entry whose digest changed: its path, the recorded and the current digest.
pub struct Change {
    pub path: String,
    pub old_digest: String,
    pub new_digest: String,
}

pub type ChangeView = (Seq<char>, Seq<char>, Seq<char>);

impl View for Change {
    type V = ChangeView;

    open spec fn view(&self) -> ChangeView {
        (self.path@, self.old_digest@, self.new_digest@)
    }
}

pub open spec fn changes_view(v: Seq<Change>) -> Seq<ChangeView> {
    Seq::new(v.len(), |i: int| v[i]@)
}

/// The entries, in order, whose current digest differs from the recorded one.
pub open spec fn changes(entries: Seq<ManifestEntryView>, current: Seq<Seq<char>>) -> Seq<ChangeView>
    recommends
        entries.len() == current.len(),
    decreases entries.len(),
{
    if entries.len() == 0 || current.len() == 0 {
        Seq::empty()
    } else {
        let r = changes(entries.drop_last(), current.drop_last());
        let e = entries.last();
        if e.1 == current.last() {
            r
        } else {
            r.push((e.0, e.1, current.last()))
        }
    }
}

/// The report line of a change: `<path> (<old> -> <new>)`.
pub open spec fn change_line(c: ChangeView) -> Seq<char> {
    c.0 + " ("@ + c.1 + " -> "@ + c.2 + ")"@
}

impl Change {
    /// Renders the change as one report line.
    pub fn to_line(&self) -> (r: String)
        ensures
            r@ == change_line(self@),
    {
        let mut r = self.path.clone();
        r.append(" (");
        r.append(self.old_digest.as_str());
        r.append(" -> ");
        r.append(self.new_digest.as_str());
        r.append(")");
        r
    }
}

/// Compares each manifest entry with the digest its file has now (`current`,
/// in entry order; the marker `deleted` for a file that cannot be opened).
pub fn changed_entries(entries: &Vec<ManifestEntry>, current: &Vec<String>) -> (r: Vec<Change>)
    requires
        entries@.len() == current@.len(),
    ensures
        changes_view(r@) == changes(manifest_entries_view(entries@), strings_view(current@)),
{
    let ghost ev = manifest_entries_view(entries@);
    let ghost cv = strings_view(current@);
    let mut out: Vec<Change> = Vec::new();
    let mut i: usize = 0;
    assert(changes_view(out@) =~= Seq::<ChangeView>::empty());
    while i < entries.len()
        invariant
            i <= entries@.len(),
            entries@.len() == current@.len(),
            ev == manifest_entries_view(entries@),
            cv == strings_view(current@),
            changes_view(out@) == changes(ev.take(i as int), cv.take(i as int)),
        decreases entries.len() - i,
    {
        assert(ev.take(i + 1).drop_last() =~= ev.take(i as int));
        assert(cv.take(i + 1).drop_last() =~= cv.take(i as int));
        assert(ev.take(i + 1).last() == entries@[i as int]@);
        assert(cv.take(i + 1).last() == current@[i as int]@);
        if entries[i].digest != current[i] {
            let ghost before = out@;
            out.push(Change {
                path: entries[i].path.clone(),
                old_digest: entries[i].digest.clone(),
                new_digest: current[i].clone(),
            });
            assert(changes_view(out@) =~= changes_view(before).push(out@.last()@));
        }
        i = i + 1;
    }
    assert(ev.take(entries@.len() as int) =~= ev);
    assert(cv.take(entries@.len() as int) =~= cv);
    out
}

/// The line a generated manifest holds for one file: `<digest> <path>`.
pub open spec fn manifest_line(digest: Seq<char>, path: Seq<char>) -> Seq<char> {
    digest + " "@ + path
}

/// Renders one line of a generated manifest.
pub fn format_manifest_line(digest: &String, path: &String) -> (r: String)
    ensures
        r@ == manifest_line(digest@, path@),
{
    let mut r = digest.clone();
    r.append(" ");
    r.append(path.as_str());
    r
}

/// Checking a manifest against the digests it recorded reports nothing.
pub proof fn unchanged_tree_reports_nothing(entries: Seq<ManifestEntryView>, current: Seq<Seq<char>>)
    requires
        entries.len() == current.len(),
        forall|i: int| 0 <= i < entries.len() ==> #[trigger] current[i] == entries[i].1,
    ensures
        changes(entries, current) == Seq::<ChangeView>::empty(),
    decreases entries.len(),
{
    if entries.len() > 0 {
        let (e, c) = (entries.drop_last(), current.drop_last());
        assert forall|i: int| 0 <= i < e.len() implies #[trigger] c[i] == e[i].1 by {
            assert(current[i] == entries[i].1);
        }
        assert(current[current.len() - 1] == entries[entries.len() - 1].1);
        unchanged_tree_reports_nothing(e, c);
    }
}

/// Checking a manifest where exactly one listed file can no longer be opened
/// reports one change: that file, from its recorded digest to `deleted`.
pub proof fn deleted_file_reported_once(entries: Seq<ManifestEntryView>, current: Seq<Seq<char>>, d: int)
    requires
        entries.len() == current.len(),
        0 <= d < entries.len(),
        current[d] == deleted_marker(),
        entries[d].1 != deleted_marker(),
        forall|i: int| 0 <= i < entries.len() && i != d ==> #[trigger] current[i] == entries[i].1,
    ensures
        changes(entries, current) == seq![(entries[d].0, entries[d].1, deleted_marker())],
        change_line((entries[d].0, entries[d].1, deleted_marker()))
            == entries[d].0 + " ("@ + entries[d].1 + " -> deleted)"@,
    decreases entries.len(),
{
    let (e, c) = (entries.drop_last(), current.drop_last());
    let n = entries.len() - 1;
    if d == n {
        assert forall|i: int| 0 <= i < e.len() implies #[trigger] c[i] == e[i].1 by {
            assert(current[i] == entries[i].1);
        }
        unchanged_tree_reports_nothing(e, c);
        assert(seq![(entries[d].0, entries[d].1, deleted_marker())] =~= Seq::<ChangeView>::empty().push((entries[d].0, entries[d].1, deleted_marker())));
    } else {
        assert forall|i: int| 0 <= i < e.len() && i != d implies #[trigger] c[i] == e[i].1 by {
            assert(current[i] == entries[i].1);
        }
        assert(current[n] == entries[n].1);
        deleted_file_reported_once(e, c, d);
    }
    reveal_strlit(" -> ");
    reveal_strlit("deleted");
    reveal_strlit(")");
    reveal_strlit(" -> deleted)");
    assert(" -> "@ + deleted_marker() + ")"@ =~= " -> deleted)"@);
    let x = entries[d];
    assert(change_line((x.0, x.1, deleted_marker())) =~= x.0 + " ("@ + x.1 + " -> deleted)"@);
}

} // verus!
