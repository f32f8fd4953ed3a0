//! The checksum manifest: lines of `<hex-digest> <path>`, separated by
//! whitespace. Blank lines are skipped; any other shape is fatal.
use vstd::prelude::*;
use crate::EngineError;
use crate::text::strings_view;

verus! {

/// A manifest line: the path it names and the digest recorded for it.
pub struct ManifestEntry {
    pub path: String,
    pub digest: String,
}

pub type ManifestEntryView = (Seq<char>, Seq<char>);

impl View for ManifestEntry {
    type V = ManifestEntryView;

    open spec fn view(&self) -> ManifestEntryView {
        (self.path@, self.digest@)
    }
}

pub open spec fn manifest_entries_view(v: Seq<ManifestEntry>) -> Seq<ManifestEntryView> {
    Seq::new(v.len(), |i: int| v[i]@)
}

/// Unicode White_Space: the characters that separate manifest tokens.
pub open spec fn is_space(c: char) -> bool {
    let n = c as u32;
    (0x09 <= n <= 0x0D) || n == 0x20 || n == 0x85 || n == 0xA0 || n == 0x1680
        || (0x2000 <= n <= 0x200A) || n == 0x2028 || n == 0x2029 || n == 0x202F
        || n == 0x205F || n == 0x3000
}

/// The maximal runs of non-whitespace characters of `s`, in order.
pub open spec fn tokens(s: Seq<char>) -> Seq<Seq<char>>
    decreases s.len(),
{
    if s.len() == 0 {
        Seq::empty()
    } else {
        let t = tokens(s.drop_last());
        if is_space(s.last()) {
            t
        } else if s.len() > 1 && !is_space(s[s.len() - 2]) {
            t.update(t.len() - 1, t.last().push(s.last()))
        } else {
            t.push(seq![s.last()])
        }
    }
}

fn is_space_char(c: char) -> (r: bool)
    ensures
        r == is_space(c),
{
    let n = c as u32;
    (0x09 <= n && n <= 0x0D) || n == 0x20 || n == 0x85 || n == 0xA0 || n == 0x1680
        || (0x2000 <= n && n <= 0x200A) || n == 0x2028 || n == 0x2029 || n == 0x202F
        || n == 0x205F || n == 0x3000
}

/// Start and end (exclusive) of each token of `line`.
fn token_spans(line: &str) -> (r: Vec<(usize, usize)>)
    ensures
        r@.len() == tokens(line@).len(),
        forall|k: int| 0 <= k < r@.len() ==> (#[trigger] r@[k]).0 <= r@[k].1 <= line@.len(),
        forall|k: int| 0 <= k < r@.len() ==> #[trigger] tokens(line@)[k] == line@.subrange(r@[k].0 as int, r@[k].1 as int),
{
    let n = line.unicode_len();
    let mut spans: Vec<(usize, usize)> = Vec::new();
    let mut prev_space = true;
    let mut i: usize = 0;
    while i < n
        invariant
            n == line@.len(),
            i <= n,
            prev_space == (i == 0 || is_space(line@[i - 1])),
            !prev_space ==> spans@.len() > 0 && spans@.last().1 == i,
            spans@.len() == tokens(line@.take(i as int)).len(),
            forall|k: int| 0 <= k < spans@.len() ==> (#[trigger] spans@[k]).0 <= spans@[k].1 <= i,
            forall|k: int| 0 <= k < spans@.len() ==> #[trigger] tokens(line@.take(i as int))[k] == line@.subrange(spans@[k].0 as int, spans@[k].1 as int),
        decreases n - i,
    {
        let c = line.get_char(i);
        let ghost s = line@.take(i + 1);
        assert(s.drop_last() =~= line@.take(i as int));
        assert(s.last() == c);
        let ghost t = tokens(line@.take(i as int));
        if is_space_char(c) {
            prev_space = true;
            assert(tokens(s) == t);
        } else if !prev_space {
            let last = spans.len() - 1;
            let (a, _) = spans[last];
            assert(tokens(line@.take(i as int))[last as int] == line@.subrange(a as int, i as int));
            spans.set(last, (a, i + 1));
            assert(s[s.len() - 2] == line@[i - 1]);
            proof {
                let t = tokens(line@.take(i as int));
                assert(line@.subrange(a as int, i + 1) =~= line@.subrange(a as int, i as int).push(c));
                assert forall|k: int| 0 <= k < spans@.len() implies #[trigger] tokens(s)[k] == line@.subrange(spans@[k].0 as int, spans@[k].1 as int) by {
                    if k < last {
                        assert(tokens(s)[k] == t[k]);
                    }
                }
            }
            prev_space = false;
        } else {
            let ghost before = spans@;
            spans.push((i, i + 1));
            proof {
                assert(line@.subrange(i as int, i + 1) =~= seq![c]);
                if i > 0 {
                    assert(s[s.len() - 2] == line@[i - 1]);
                }
                assert(tokens(s) == t.push(seq![c]));
                assert forall|k: int| 0 <= k < spans@.len() implies #[trigger] tokens(s)[k] == line@.subrange(spans@[k].0 as int, spans@[k].1 as int) by {
                    if k < before.len() {
                        assert(tokens(s)[k] == t[k]);
                        assert(spans@[k] == before[k]);
                    }
                }
            }
            prev_space = false;
        }
        i = i + 1;
    }
    assert(line@.take(n as int) =~= line@);
    assert forall|k: int| 0 <= k < spans@.len() implies #[trigger] tokens(line@)[k] == line@.subrange(spans@[k].0 as int, spans@[k].1 as int) by {
        assert(tokens(line@.take(n as int))[k] == line@.subrange(spans@[k].0 as int, spans@[k].1 as int));
    }
    spans
}

/// What one manifest line means: nothing (blank), one entry (two tokens),
/// or malformed (any other count).
pub open spec fn line_meaning(line: Seq<char>) -> Result<Option<ManifestEntryView>, EngineError> {
    let t = tokens(line);
    if t.len() == 0 {
        Ok(None)
    } else if t.len() == 2 {
        Ok(Some((t[1], t[0])))
    } else {
        Err(EngineError::MalformedManifest)
    }
}

/// Parses one manifest line.
pub fn parse_line(line: &str) -> (r: Result<Option<ManifestEntry>, EngineError>)
    ensures
        match (r, line_meaning(line@)) {
            (Ok(None), Ok(None)) => true,
            (Ok(Some(e)), Ok(Some(v))) => e@ == v,
            (Err(a), Err(b)) => a == b,
            _ => false,
        },
{
    let spans = token_spans(line);
    if spans.len() == 0 {
        Ok(None)
    } else if spans.len() == 2 {
        let (a0, b0) = spans[0];
        let (a1, b1) = spans[1];
        let digest = String::from_str(line.substring_char(a0, b0));
        let path = String::from_str(line.substring_char(a1, b1));
        proof {
            assert(tokens(line@)[0] == line@.subrange(a0 as int, b0 as int));
            assert(tokens(line@)[1] == line@.subrange(a1 as int, b1 as int));
        }
        Ok(Some(ManifestEntry { path, digest }))
    } else {
        Err(EngineError::MalformedManifest)
    }
}

/// The entries of a whole manifest, in line order; malformed if any line is.
pub open spec fn manifest_meaning(lines: Seq<Seq<char>>) -> Result<Seq<ManifestEntryView>, EngineError>
    decreases lines.len(),
{
    if lines.len() == 0 {
        Ok(Seq::empty())
    } else {
        match manifest_meaning(lines.drop_last()) {
            Err(e) => Err(e),
            Ok(es) => match line_meaning(lines.last()) {
                Err(e) => Err(e),
                Ok(None) => Ok(es),
                Ok(Some(v)) => Ok(es.push(v)),
            },
        }
    }
}

/// Parses a whole manifest before any entry is used: either every line is
/// well formed and all entries come back in order, or the manifest is
/// rejected as a whole.
pub fn parse_manifest(lines: &Vec<String>) -> (r: Result<Vec<ManifestEntry>, EngineError>)
    ensures
        match (r, manifest_meaning(strings_view(lines@))) {
            (Ok(es), Ok(v)) => manifest_entries_view(es@) == v,
            (Err(a), Err(b)) => a == b,
            _ => false,
        },
{
    let ghost lv = strings_view(lines@);
    let mut out: Vec<ManifestEntry> = Vec::new();
    let mut i: usize = 0;
    assert(lv.take(0) =~= Seq::<Seq<char>>::empty());
    assert(manifest_entries_view(out@) =~= Seq::<ManifestEntryView>::empty());
    while i < lines.len()
        invariant
            i <= lines@.len(),
            lv == strings_view(lines@),
            manifest_meaning(lv.take(i as int)) == Ok::<Seq<ManifestEntryView>, EngineError>(manifest_entries_view(out@)),
        decreases lines.len() - i,
    {
        assert(lv.take(i + 1).drop_last() =~= lv.take(i as int));
        assert(lv.take(i + 1).last() == lines@[i as int]@);
        match parse_line(lines[i].as_str()) {
            Err(e) => {
                proof { lemma_meaning_err_extends(lv, i as int + 1); }
                return Err(e);
            },
            Ok(None) => {},
            Ok(Some(entry)) => {
                let ghost before = out@;
                out.push(entry);
                assert(manifest_entries_view(out@) =~= manifest_entries_view(before).push(out@.last()@));
            },
        }
        i = i + 1;
    }
    assert(lv.take(lines@.len() as int) =~= lv);
    Ok(out)
}

/// A malformed prefix makes the whole manifest malformed.
proof fn lemma_meaning_err_extends(lines: Seq<Seq<char>>, n: int)
    requires
        0 <= n <= lines.len(),
        manifest_meaning(lines.take(n)) is Err,
    ensures
        manifest_meaning(lines) == manifest_meaning(lines.take(n)),
    decreases lines.len() - n,
{
    if n < lines.len() {
        assert(lines.take(n + 1).drop_last() =~= lines.take(n));
        lemma_meaning_err_extends(lines, n + 1);
    } else {
        assert(lines.take(n) =~= lines);
    }
}

/// One malformed line, wherever it stands, rejects the whole manifest: no
/// entry of it, before or after that line, is used.
pub proof fn malformed_line_rejects_manifest(lines: Seq<Seq<char>>, i: int)
    requires
        0 <= i < lines.len(),
        line_meaning(lines[i]) is Err,
    ensures
        manifest_meaning(lines) == Err::<Seq<ManifestEntryView>, EngineError>(EngineError::MalformedManifest),
{
    let p = lines.take(i + 1);
    assert(p.drop_last() =~= lines.take(i));
    assert(p.last() == lines[i]);
    lemma_meaning_err_is_malformed(lines.take(i));
    lemma_meaning_err_extends(lines, i + 1);
}

/// The only failure of a manifest is a malformed line.
proof fn lemma_meaning_err_is_malformed(lines: Seq<Seq<char>>)
    ensures
        manifest_meaning(lines) is Err ==> manifest_meaning(lines) == Err::<Seq<ManifestEntryView>, EngineError>(EngineError::MalformedManifest),
    decreases lines.len(),
{
    if lines.len() > 0 {
        lemma_meaning_err_is_malformed(lines.drop_last());
    }
}

} // verus!
