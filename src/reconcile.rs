//! N-way reconciliation of path maps into divergence records.
use vstd::prelude::*;
use crate::path_map::{EntryView, PathMap, lookup, has_key};
use crate::text::{join, joined, strings_view};

verus! {

/// What one source shows for a path: a digest text, or nothing at that path.
pub enum Observation {
    Present(String),
    Absent,
}

impl View for Observation {
    type V = Option<Seq<char>>;

    open spec fn view(&self) -> Option<Seq<char>> {
        match self {
            Observation::Present(d) => Some(d@),
            Observation::Absent => None,
        }
    }
}

impl Observation {
    /// Whether two observations agree.
    pub fn same_as(&self, other: &Observation) -> (r: bool)
        ensures
            r == (self@ == other@),
    {
        match (self, other) {
            (Observation::Present(a), Observation::Present(b)) => *a == *b,
            (Observation::Absent, Observation::Absent) => true,
            _ => false,
        }
    }
}

pub open spec fn observations_view(v: Seq<Observation>) -> Seq<Option<Seq<char>>> {
    Seq::new(v.len(), |i: int| v[i]@)
}

/// A path whose observations are not the same across all sources, with the
/// observations in source order.
pub struct DivergenceRecord {
    pub path: String,
    pub observations: Vec<Observation>,
}

pub type RecordView = (Seq<char>, Seq<Option<Seq<char>>>);

impl View for DivergenceRecord {
    type V = RecordView;

    open spec fn view(&self) -> RecordView {
        (self.path@, observations_view(self.observations@))
    }
}

pub open spec fn records_view(v: Seq<DivergenceRecord>) -> Seq<RecordView> {
    Seq::new(v.len(), |i: int| v[i]@)
}

pub open spec fn maps_view(v: Seq<PathMap>) -> Seq<Seq<EntryView>> {
    Seq::new(v.len(), |i: int| v[i]@)
}

pub open spec fn key_list(m: Seq<EntryView>) -> Seq<Seq<char>> {
    Seq::new(m.len(), |i: int| m[i].0)
}

/// Every source's paths, source after source, each in its map's order.
pub open spec fn all_keys(ss: Seq<Seq<EntryView>>) -> Seq<Seq<char>>
    decreases ss.len(),
{
    if ss.len() == 0 {
        Seq::empty()
    } else {
        all_keys(ss.drop_last()) + key_list(ss.last())
    }
}

/// The distinct elements of `s`, in order of first occurrence.
pub open spec fn first_seen(s: Seq<Seq<char>>) -> Seq<Seq<char>>
    decreases s.len(),
{
    if s.len() == 0 {
        Seq::empty()
    } else {
        let d = first_seen(s.drop_last());
        if d.contains(s.last()) {
            d
        } else {
            d.push(s.last())
        }
    }
}

/// What each source shows for `k`, in source order.
pub open spec fn observations(ss: Seq<Seq<EntryView>>, k: Seq<char>) -> Seq<Option<Seq<char>>> {
    Seq::new(ss.len(), |i: int| lookup(ss[i], k))
}

/// All observations are the same.
pub open spec fn uniform(o: Seq<Option<Seq<char>>>) -> bool {
    forall|i: int| 0 <= i < o.len() ==> #[trigger] o[i] == o[0]
}

/// The records for `keys`, in their order, of those keys whose observations
/// are not uniform.
pub open spec fn report(ss: Seq<Seq<EntryView>>, keys: Seq<Seq<char>>) -> Seq<RecordView>
    decreases keys.len(),
{
    if keys.len() == 0 {
        Seq::empty()
    } else {
        let r = report(ss, keys.drop_last());
        let o = observations(ss, keys.last());
        if uniform(o) {
            r
        } else {
            r.push((keys.last(), o))
        }
    }
}

/// The divergence report of `ss`: every path known to any source, once, in
/// order of first discovery, whose observations differ.
pub open spec fn divergences(ss: Seq<Seq<EntryView>>) -> Seq<RecordView> {
    report(ss, first_seen(all_keys(ss)))
}

fn contains_string(v: &Vec<String>, s: &String) -> (r: bool)
    ensures
        r == strings_view(v@).contains(s@),
{
    let mut i: usize = 0;
    while i < v.len()
        invariant
            i <= v@.len(),
            forall|j: int| 0 <= j < i ==> v@[j]@ != s@,
        decreases v.len() - i,
    {
        if v[i] == *s {
            assert(strings_view(v@)[i as int] == s@);
            return true;
        }
        i = i + 1;
    }
    proof {
        if strings_view(v@).contains(s@) {
            let j = choose|j: int| 0 <= j < v@.len() && strings_view(v@)[j] == s@;
            assert(v@[j]@ == s@);
        }
    }
    false
}

/// Every path of any source, once, in order of first discovery.
fn discovered_paths(sources: &Vec<PathMap>) -> (r: Vec<String>)
    requires
        forall|i: int| 0 <= i < sources@.len() ==> (#[trigger] sources@[i]).wf(),
    ensures
        strings_view(r@) == first_seen(all_keys(maps_view(sources@))),
{
    let ghost ss = maps_view(sources@);
    let mut keys: Vec<String> = Vec::new();
    let mut i: usize = 0;
    while i < sources.len()
        invariant
            i <= sources@.len(),
            ss == maps_view(sources@),
            forall|i: int| 0 <= i < sources@.len() ==> (#[trigger] sources@[i]).wf(),
            strings_view(keys@) == first_seen(all_keys(ss.take(i as int))),
        decreases sources.len() - i,
    {
        let m = &sources[i];
        assert(m.wf());
        let ghost base = all_keys(ss.take(i as int));
        let mut j: usize = 0;
        while j < m.len()
            invariant
                i < sources@.len(),
                m == sources@[i as int],
                m.wf(),
                j <= m@.len(),
                ss == maps_view(sources@),
                base == all_keys(ss.take(i as int)),
                strings_view(keys@) == first_seen(base + key_list(m@).take(j as int)),
            decreases m@.len() - j,
        {
            let p = m.path_at(j);
            let ghost s = base + key_list(m@).take(j as int);
            assert((base + key_list(m@).take(j + 1)).drop_last() =~= s);
            assert((base + key_list(m@).take(j + 1)).last() == p@);
            if !contains_string(&keys, p) {
                let ghost before = keys@;
                keys.push(p.clone());
                assert(strings_view(keys@) =~= strings_view(before).push(p@));
            }
            j = j + 1;
        }
        assert(ss.take(i + 1).drop_last() =~= ss.take(i as int));
        assert(ss.take(i + 1).last() == m@);
        assert(key_list(m@).take(m@.len() as int) =~= key_list(m@));
        i = i + 1;
    }
    assert(ss.take(sources@.len() as int) =~= ss);
    keys
}

/// What each source shows for `key`.
fn observe(sources: &Vec<PathMap>, key: &String) -> (r: Vec<Observation>)
    requires
        forall|i: int| 0 <= i < sources@.len() ==> (#[trigger] sources@[i]).wf(),
    ensures
        observations_view(r@) == observations(maps_view(sources@), key@),
{
    let mut r: Vec<Observation> = Vec::new();
    let mut i: usize = 0;
    while i < sources.len()
        invariant
            i <= sources@.len(),
            forall|i: int| 0 <= i < sources@.len() ==> (#[trigger] sources@[i]).wf(),
            r@.len() == i,
            forall|j: int| 0 <= j < i ==> (#[trigger] r@[j])@ == lookup(sources@[j]@, key@),
        decreases sources.len() - i,
    {
        let o = match sources[i].get(key) {
            Some(d) => Observation::Present(d.clone()),
            None => Observation::Absent,
        };
        r.push(o);
        i = i + 1;
    }
    assert(observations_view(r@) =~= observations(maps_view(sources@), key@));
    r
}

/// Whether all observations are the same.
fn all_same(obs: &Vec<Observation>) -> (r: bool)
    ensures
        r == uniform(observations_view(obs@)),
{
    let mut i: usize = 1;
    if obs.len() == 0 {
        return true;
    }
    while i < obs.len()
        invariant
            1 <= i <= obs@.len(),
            forall|j: int| 0 <= j < i ==> (#[trigger] obs@[j])@ == obs@[0]@,
        decreases obs.len() - i,
    {
        if !obs[i].same_as(&obs[0]) {
            assert(observations_view(obs@)[i as int] != observations_view(obs@)[0]);
            return false;
        }
        i = i + 1;
    }
    true
}

/// Reconciles the path maps of several roots: one record per path, in order
/// of first discovery, for each path whose observations are not all the same
/// (a path missing from a source is observed as absent there).
pub fn reconcile(sources: &Vec<PathMap>) -> (r: Vec<DivergenceRecord>)
    requires
        forall|i: int| 0 <= i < sources@.len() ==> (#[trigger] sources@[i]).wf(),
    ensures
        records_view(r@) == divergences(maps_view(sources@)),
{
    let keys = discovered_paths(sources);
    let ghost ss = maps_view(sources@);
    let mut r: Vec<DivergenceRecord> = Vec::new();
    let mut i: usize = 0;
    while i < keys.len()
        invariant
            i <= keys@.len(),
            ss == maps_view(sources@),
            forall|i: int| 0 <= i < sources@.len() ==> (#[trigger] sources@[i]).wf(),
            records_view(r@) == report(ss, strings_view(keys@).take(i as int)),
        decreases keys.len() - i,
    {
        let ghost kv = strings_view(keys@);
        assert(kv.take(i + 1).drop_last() =~= kv.take(i as int));
        assert(kv.take(i + 1).last() == keys@[i as int]@);
        let obs = observe(sources, &keys[i]);
        if !all_same(&obs) {
            let ghost before = r@;
            r.push(DivergenceRecord { path: keys[i].clone(), observations: obs });
            assert(records_view(r@) =~= records_view(before).push((keys@[i as int]@, observations(ss, keys@[i as int]@))));
        }
        i = i + 1;
    }
    assert(strings_view(keys@).take(keys@.len() as int) =~= strings_view(keys@));
    r
}


/// The text of one observation: the digest, or `non-exist`.
pub open spec fn observation_token(o: Option<Seq<char>>) -> Seq<char> {
    match o {
        Some(d) => d,
        None => "non-exist"@,
    }
}

/// The report line of a record: `<path> (<obs1> | <obs2> | ...)`.
pub open spec fn record_line(r: RecordView) -> Seq<char> {
    r.0 + " ("@ + joined(Seq::new(r.1.len(), |i: int| observation_token(r.1[i])), " | "@)
        + ")"@
}

impl DivergenceRecord {
    /// Renders the record as one report line.
    pub fn to_line(&self) -> (r: String)
        ensures
            r@ == record_line(self@),
    {
        let mut tokens: Vec<String> = Vec::new();
        let mut i: usize = 0;
        while i < self.observations.len()
            invariant
                i <= self.observations@.len(),
                tokens@.len() == i,
                forall|j: int| 0 <= j < i ==> (#[trigger] tokens@[j])@ == observation_token(self.observations@[j]@),
            decreases self.observations.len() - i,
        {
            let t = match &self.observations[i] {
                Observation::Present(d) => d.clone(),
                Observation::Absent => String::from_str("non-exist"),
            };
            tokens.push(t);
            i = i + 1;
        }
        let ghost ov = self@.1;
        assert(strings_view(tokens@) =~= Seq::new(ov.len(), |i: int| observation_token(ov[i])));
        let mut r = self.path.clone();
        r.append(" (");
        r.append(join(&tokens, " | ").as_str());
        r.append(")");
        r
    }
}

/// Whether the digests are not all the same.
pub open spec fn digests_differ(d: Seq<Seq<char>>) -> bool {
    exists|i: int| 0 <= i < d.len() && #[trigger] d[i] != d[0]
}

/// Compares files directly: when their digests are not all the same, one
/// record for all of them, named by their names joined with `,` and carrying
/// every digest in order; nothing when they agree.
pub fn reconcile_files(names: &Vec<String>, digests: &Vec<String>) -> (r: Option<DivergenceRecord>)
    requires
        names@.len() == digests@.len(),
    ensures
        r is Some <==> digests_differ(strings_view(digests@)),
        r matches Some(rec) ==> rec@ == (
            joined(strings_view(names@), ","@),
            Seq::new(digests@.len(), |i: int| Some(digests@[i]@)),
        ),
{
    let mut differ = false;
    let mut obs: Vec<Observation> = Vec::new();
    let mut i: usize = 0;
    while i < digests.len()
        invariant
            i <= digests@.len(),
            obs@.len() == i,
            forall|j: int| 0 <= j < i ==> (#[trigger] obs@[j])@ == Some(digests@[j]@),
            differ <==> exists|j: int| 0 <= j < i && #[trigger] digests@[j]@ != digests@[0]@,
        decreases digests.len() - i,
    {
        if digests[i] != digests[0] {
            differ = true;
        }
        obs.push(Observation::Present(digests[i].clone()));
        i = i + 1;
    }
    proof {
        if differ {
            let j = choose|j: int| 0 <= j < digests@.len() && #[trigger] digests@[j]@ != digests@[0]@;
            assert(strings_view(digests@)[j] != strings_view(digests@)[0]);
        }
        if digests_differ(strings_view(digests@)) {
            let j = choose|j: int| 0 <= j < digests@.len() && #[trigger] strings_view(digests@)[j] != strings_view(digests@)[0];
            assert(digests@[j]@ != digests@[0]@);
        }
    }
    if differ {
        let rec = DivergenceRecord { path: join(names, ","), observations: obs };
        assert(rec@.1 =~= Seq::new(digests@.len(), |i: int| Some(digests@[i]@)));
        Some(rec)
    } else {
        None
    }
}

pub open spec fn no_dups(s: Seq<Seq<char>>) -> bool {
    forall|i: int, j: int| 0 <= i < j < s.len() ==> s[i] != s[j]
}

/// First occurrences keep every element once.
pub proof fn lemma_first_seen(s: Seq<Seq<char>>)
    ensures
        no_dups(first_seen(s)),
        forall|x: Seq<char>| #[trigger] first_seen(s).contains(x) <==> s.contains(x),
    decreases s.len(),
{
    if s.len() > 0 {
        let init = s.drop_last();
        lemma_first_seen(init);
        assert forall|x: Seq<char>| s.contains(x) <==> (init.contains(x) || x == s.last()) by {
            if s.contains(x) {
                let i = choose|i: int| 0 <= i < s.len() && s[i] == x;
                if i < init.len() {
                    assert(init[i] == x);
                }
            }
            if init.contains(x) {
                let i = choose|i: int| 0 <= i < init.len() && init[i] == x;
                assert(s[i] == x);
            }
            if x == s.last() {
                assert(s[s.len() - 1] == x);
            }
        }
        let d = first_seen(init);
        if !d.contains(s.last()) {
            let f = d.push(s.last());
            assert forall|x: Seq<char>| f.contains(x) <==> (d.contains(x) || x == s.last()) by {
                if f.contains(x) {
                    let i = choose|i: int| 0 <= i < f.len() && f[i] == x;
                    if i < d.len() {
                        assert(d[i] == x);
                    }
                }
                if d.contains(x) {
                    let i = choose|i: int| 0 <= i < d.len() && d[i] == x;
                    assert(f[i] == x);
                }
                if x == s.last() {
                    assert(f[d.len() as int] == x);
                }
            }
            assert forall|i: int, j: int| 0 <= i < j < f.len() implies f[i] != f[j] by {
                if j == d.len() {
                    assert(d.contains(d[i]));
                }
            }
        }
    }
}

/// Keys whose observations are all uniform report nothing.
proof fn lemma_report_empty(ss: Seq<Seq<EntryView>>, keys: Seq<Seq<char>>)
    requires
        forall|k: Seq<char>| #[trigger] keys.contains(k) ==> uniform(observations(ss, k)),
    ensures
        report(ss, keys) == Seq::<RecordView>::empty(),
    decreases keys.len(),
{
    if keys.len() > 0 {
        let init = keys.drop_last();
        assert forall|k: Seq<char>| #[trigger] init.contains(k) implies uniform(observations(ss, k)) by {
            let i = choose|i: int| 0 <= i < init.len() && init[i] == k;
            assert(keys[i] == k);
            assert(keys.contains(k));
        }
        assert(keys[keys.len() - 1] == keys.last());
        assert(keys.contains(keys.last()));
        lemma_report_empty(ss, init);
    }
}

/// Distinct keys with a single divergent one report exactly that one.
proof fn lemma_report_single(ss: Seq<Seq<EntryView>>, keys: Seq<Seq<char>>, p: Seq<char>)
    requires
        no_dups(keys),
        keys.contains(p),
        !uniform(observations(ss, p)),
        forall|k: Seq<char>| #[trigger] keys.contains(k) && k != p ==> uniform(observations(ss, k)),
    ensures
        report(ss, keys) == seq![(p, observations(ss, p))],
    decreases keys.len(),
{
    let init = keys.drop_last();
    let n = keys.len() - 1;
    if keys.last() == p {
        assert forall|k: Seq<char>| #[trigger] init.contains(k) implies uniform(observations(ss, k)) by {
            let i = choose|i: int| 0 <= i < init.len() && init[i] == k;
            assert(keys[i] == k);
            assert(keys.contains(k));
            assert(keys[i] != keys[n]);
        }
        lemma_report_empty(ss, init);
    } else {
        let i = choose|i: int| 0 <= i < keys.len() && keys[i] == p;
        assert(keys[n] == keys.last());
        assert(init[i] == p);
        assert forall|k: Seq<char>| #[trigger] init.contains(k) && k != p implies uniform(observations(ss, k)) by {
            let i = choose|i: int| 0 <= i < init.len() && init[i] == k;
            assert(keys[i] == k);
            assert(keys.contains(k));
        }
        assert(keys.contains(keys[n]));
        lemma_report_single(ss, init, p);
    }
}

/// The paths known to either of two sources are those of the first, then
/// those of the second.
proof fn lemma_all_keys_two(a: Seq<EntryView>, b: Seq<EntryView>)
    ensures
        all_keys(seq![a, b]) == key_list(a) + key_list(b),
{
    assert(seq![a, b].drop_last() =~= seq![a]);
    assert(seq![a].drop_last() =~= Seq::<Seq<EntryView>>::empty());
    assert(all_keys(Seq::<Seq<EntryView>>::empty()) == Seq::<Seq<char>>::empty());
    assert(Seq::<Seq<char>>::empty() + key_list(a) =~= key_list(a));
    assert(all_keys(seq![a]) == key_list(a));
}

/// Two sources that agree on every path but `p`, where they disagree and the
/// first has an entry, diverge in exactly one record: the one for `p`.
proof fn lemma_two_sources_single(a: Seq<EntryView>, b: Seq<EntryView>, p: Seq<char>)
    requires
        has_key(a, p),
        lookup(a, p) != lookup(b, p),
        forall|k: Seq<char>| k != p ==> lookup(a, k) == lookup(b, k),
    ensures
        divergences(seq![a, b]) == seq![(p, observations(seq![a, b], p))],
{
    let ss = seq![a, b];
    let all = all_keys(ss);
    lemma_all_keys_two(a, b);
    lemma_first_seen(all);
    let i = choose|i: int| 0 <= i < a.len() && a[i].0 == p;
    assert(all[i] == p);
    assert(all.contains(p));
    assert(first_seen(all).contains(p));
    let op = observations(ss, p);
    assert(op[1] != op[0]);
    assert forall|k: Seq<char>| #[trigger] first_seen(all).contains(k) && k != p implies uniform(observations(ss, k)) by {
        let o = observations(ss, k);
        assert(o[1] == o[0]);
    }
    lemma_report_single(ss, first_seen(all), p);
}

/// Reconciling any number of identical copies of one tree reports nothing.
pub proof fn identical_sources_agree(ss: Seq<Seq<EntryView>>, m: Seq<EntryView>)
    requires
        forall|i: int| 0 <= i < ss.len() ==> #[trigger] ss[i] == m,
    ensures
        divergences(ss) == Seq::<RecordView>::empty(),
{
    assert forall|k: Seq<char>| #[trigger] first_seen(all_keys(ss)).contains(k) implies uniform(observations(ss, k)) by {
        let o = observations(ss, k);
        assert forall|i: int| 0 <= i < o.len() implies #[trigger] o[i] == o[0] by {
            assert(ss[i] == m);
            assert(ss[0] == m);
        }
    }
    lemma_report_empty(ss, first_seen(all_keys(ss)));
}

/// Reconciling a tree with a copy that lacks one of its files reports
/// exactly one record: that file's path, with its digest in the first
/// source and absent in the second.
pub proof fn missing_file_diverges_once(a: Seq<EntryView>, b: Seq<EntryView>, p: Seq<char>)
    requires
        has_key(a, p),
        !has_key(b, p),
        forall|k: Seq<char>| k != p ==> lookup(a, k) == lookup(b, k),
    ensures
        divergences(seq![a, b]) == seq![(p, seq![lookup(a, p), None::<Seq<char>>])],
{
    lemma_two_sources_single(a, b, p);
    assert(observations(seq![a, b], p) =~= seq![lookup(a, p), None::<Seq<char>>]);
}

/// Reconciling two trees that differ only in the content of one shared file
/// reports exactly one record: that file's path, with two distinct digests.
pub proof fn changed_file_diverges_once(a: Seq<EntryView>, b: Seq<EntryView>, p: Seq<char>)
    requires
        has_key(a, p),
        has_key(b, p),
        lookup(a, p) != lookup(b, p),
        forall|k: Seq<char>| k != p ==> lookup(a, k) == lookup(b, k),
    ensures
        divergences(seq![a, b]) == seq![(p, seq![lookup(a, p), lookup(b, p)])],
        lookup(a, p) is Some && lookup(b, p) is Some,
        lookup(a, p)->0 != lookup(b, p)->0,
{
    lemma_two_sources_single(a, b, p);
    assert(observations(seq![a, b], p) =~= seq![lookup(a, p), lookup(b, p)]);
}

} // verus!
