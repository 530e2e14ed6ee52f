use vstd::prelude::*;

verus! {

/// The observations that one detector recorded in one measurement.
#[verifier::reject_recursive_types(O)]
pub struct DetectorObservations<O> {
    pub name: String,
    pub observations: Vec<O>,
}

/// What the registry holds for one detector name: its observations pooled over
/// all measurements, and the last fit that succeeded on them, if any.
#[verifier::reject_recursive_types(O)]
#[verifier::reject_recursive_types(F)]
pub struct FitEntry<O, F> {
    pub name: String,
    pub observations: Vec<O>,
    pub fit: Option<F>,
}

/// A pair of indices `(i, j)` comes before `(i2, j2)` in the order in which
/// measurements, then detectors within a measurement, are visited.
pub open spec fn visited_before(i: int, j: int, i2: int, j2: int) -> bool {
    i < i2 || (i == i2 && j < j2)
}

/// The names of the detectors met before position `(i, j)`.
pub open spec fn names_before<O>(
    measurements: Seq<Vec<DetectorObservations<O>>>,
    i: int,
    j: int,
) -> Set<Seq<char>> {
    Set::new(
        |n: Seq<char>|
            exists|a: int, b: int|
                #![trigger measurements[a]@[b]]
                0 <= a < measurements.len() && 0 <= b < measurements[a]@.len() && visited_before(
                    a,
                    b,
                    i,
                    j,
                ) && measurements[a]@[b].name@ == n,
    )
}

/// Every detector name that occurs in some measurement.
pub open spec fn detector_names<O>(measurements: Seq<Vec<DetectorObservations<O>>>) -> Set<
    Seq<char>,
> {
    Set::new(
        |n: Seq<char>|
            exists|a: int, b: int|
                #![trigger measurements[a]@[b]]
                0 <= a < measurements.len() && 0 <= b < measurements[a]@.len()
                    && measurements[a]@[b].name@ == n,
    )
}

/// The observations of the detectors called `name` in one measurement, in order.
pub open spec fn pooled_in<O>(detectors: Seq<DetectorObservations<O>>, name: Seq<char>) -> Seq<O>
    decreases detectors.len(),
{
    if detectors.len() == 0 {
        Seq::empty()
    } else {
        let last = detectors.last();
        pooled_in(detectors.drop_last(), name) + if last.name@ == name {
            last.observations@
        } else {
            Seq::empty()
        }
    }
}

/// The observations of the detectors called `name` in all measurements, in order.
pub open spec fn pooled<O>(measurements: Seq<Vec<DetectorObservations<O>>>, name: Seq<char>) -> Seq<
    O,
>
    decreases measurements.len(),
{
    if measurements.len() == 0 {
        Seq::empty()
    } else {
        pooled(measurements.drop_last(), name) + pooled_in(measurements.last()@, name)
    }
}

/// Some entry is called `name`.
pub open spec fn has_name<O, F>(entries: Seq<FitEntry<O, F>>, name: Seq<char>) -> bool {
    exists|k: int| 0 <= k < entries.len() && #[trigger] entries[k].name@ == name
}

/// No two entries share a name.
pub open spec fn unique_names<O, F>(entries: Seq<FitEntry<O, F>>) -> bool {
    forall|a: int, b: int|
        0 <= a < entries.len() && 0 <= b < entries.len() && #[trigger] entries[a].name@
            == #[trigger] entries[b].name@ ==> a == b
}

/// An entry called `name`: the only one where names are unique.
pub open spec fn entry_index<O, F>(entries: Seq<FitEntry<O, F>>, name: Seq<char>) -> int {
    choose|k: int| 0 <= k < entries.len() && #[trigger] entries[k].name@ == name
}

/// The entries as a map from detector name to (pooled observations, fit).
pub open spec fn entries_map<O, F>(entries: Seq<FitEntry<O, F>>) -> Map<
    Seq<char>,
    (Seq<O>, Option<F>),
> {
    Map::new(
        |n: Seq<char>| has_name(entries, n),
        |n: Seq<char>|
            (
                entries[entry_index(entries, n)].observations@,
                entries[entry_index(entries, n)].fit,
            ),
    )
}

/// The entry that `synchronize` leaves for `name`: the observations pooled from
/// `measurements`, and the fit that `before` held for that name, if any.
pub open spec fn synchronized_entry<O, F>(
    before: Map<Seq<char>, (Seq<O>, Option<F>)>,
    measurements: Seq<Vec<DetectorObservations<O>>>,
    name: Seq<char>,
) -> (Seq<O>, Option<F>) {
    (
        pooled(measurements, name),
        if before.contains_key(name) {
            before[name].1
        } else {
            None
        },
    )
}

/// `after` is what `synchronize` makes of `before` for `measurements`.
pub open spec fn is_synchronized<O, F>(
    before: Map<Seq<char>, (Seq<O>, Option<F>)>,
    after: Map<Seq<char>, (Seq<O>, Option<F>)>,
    measurements: Seq<Vec<DetectorObservations<O>>>,
) -> bool {
    &&& after.dom() == detector_names(measurements)
    &&& forall|n: Seq<char>| #[trigger]
        after.contains_key(n) ==> after[n] == synchronized_entry(before, measurements, n)
}

/// One fit slot per detector name, kept in step with the measurements.
#[verifier::reject_recursive_types(O)]
#[verifier::reject_recursive_types(F)]
pub struct FitRegistry<O, F> {
    entries: Vec<FitEntry<O, F>>,
}

impl<O, F> View for FitRegistry<O, F> {
    type V = Map<Seq<char>, (Seq<O>, Option<F>)>;

    closed spec fn view(&self) -> Self::V {
        entries_map(self.entries@)
    }
}

proof fn lemma_entries_map_at<O, F>(entries: Seq<FitEntry<O, F>>, k: int)
    requires
        unique_names(entries),
        0 <= k < entries.len(),
    ensures
        entries_map(entries).contains_key(entries[k].name@),
        entries_map(entries)[entries[k].name@] == (entries[k].observations@, entries[k].fit),
{
    let n = entries[k].name@;
    assert(has_name(entries, n));
    let c = entry_index(entries, n);
    assert(entries[c].name@ == n);
}

fn same_name(a: &String, b: &String) -> (r: bool)
    ensures
        r == (a@ == b@),
{
    (*a).eq(b)
}

/// Appends the observations of every detector called `name` in `detectors` to `out`.
fn append_pooled_in<O: Copy>(detectors: &Vec<DetectorObservations<O>>, name: &String, out: &mut Vec<O>)
    ensures
        final(out)@ == old(out)@ + pooled_in(detectors@, name@),
{
    let ghost start = out@;
    let mut j: usize = 0;
    while j < detectors.len()
        invariant
            j <= detectors.len(),
            out@ == start + pooled_in(detectors@.take(j as int), name@),
        decreases detectors.len() - j,
    {
        let d = &detectors[j];
        assert(detectors@.take(j + 1).drop_last() =~= detectors@.take(j as int));
        if same_name(&d.name, name) {
            let ghost before = out@;
            let mut t: usize = 0;
            while t < d.observations.len()
                invariant
                    t <= d.observations.len(),
                    out@ == before + d.observations@.take(t as int),
                decreases d.observations.len() - t,
            {
                out.push(d.observations[t]);
                t += 1;
                assert(out@ =~= before + d.observations@.take(t as int));
            }
            assert(d.observations@.take(t as int) =~= d.observations@);
            assert(out@ =~= start + pooled_in(detectors@.take(j + 1), name@));
        } else {
            assert(out@ =~= start + pooled_in(detectors@.take(j + 1), name@));
        }
        j += 1;
    }
    assert(detectors@.take(j as int) =~= detectors@);
}

/// The observations of every detector called `name`, over all measurements in
/// order and over the detectors of each measurement in order.
pub fn pooled_observations<O: Copy>(
    measurements: &Vec<Vec<DetectorObservations<O>>>,
    name: &String,
) -> (r: Vec<O>)
    ensures
        r@ == pooled(measurements@, name@),
{
    let mut out: Vec<O> = Vec::new();
    let mut i: usize = 0;
    while i < measurements.len()
        invariant
            i <= measurements.len(),
            out@ == pooled(measurements@.take(i as int), name@),
        decreases measurements.len() - i,
    {
        append_pooled_in(&measurements[i], name, &mut out);
        assert(measurements@.take(i + 1).drop_last() =~= measurements@.take(i as int));
        i += 1;
    }
    assert(measurements@.take(i as int) =~= measurements@);
    out
}

fn position_of(names: &Vec<String>, name: &String) -> (r: Option<usize>)
    ensures
        r matches Some(k) ==> k < names.len() && names@[k as int]@ == name@,
        r is None ==> forall|k: int| 0 <= k < names.len() ==> #[trigger] names@[k]@ != name@,
{
    let mut k: usize = 0;
    while k < names.len()
        invariant
            k <= names.len(),
            forall|a: int| 0 <= a < k ==> #[trigger] names@[a]@ != name@,
        decreases names.len() - k,
    {
        if same_name(&names[k], name) {
            return Some(k);
        }
        k += 1;
    }
    None
}

/// Every detector name that occurs in `measurements`, each once, in the order of
/// first occurrence.
pub fn distinct_detector_names<O>(measurements: &Vec<Vec<DetectorObservations<O>>>) -> (r: Vec<
    String,
>)
    ensures
        forall|a: int, b: int|
            0 <= a < r.len() && 0 <= b < r.len() && #[trigger] r@[a]@ == #[trigger] r@[b]@ ==> a
                == b,
        forall|n: Seq<char>|
            detector_names(measurements@).contains(n) <==> exists|k: int|
                0 <= k < r.len() && #[trigger] r@[k]@ == n,
{
    let mut names: Vec<String> = Vec::new();
    let mut i: usize = 0;
    while i < measurements.len()
        invariant
            i <= measurements.len(),
            forall|a: int, b: int|
                0 <= a < names.len() && 0 <= b < names.len() && #[trigger] names@[a]@
                    == #[trigger] names@[b]@ ==> a == b,
            forall|n: Seq<char>|
                names_before(measurements@, i as int, 0).contains(n) <==> exists|k: int|
                    0 <= k < names.len() && #[trigger] names@[k]@ == n,
        decreases measurements.len() - i,
    {
        let detectors = &measurements[i];
        let mut j: usize = 0;
        while j < detectors.len()
            invariant
                i < measurements.len(),
                detectors == measurements@[i as int],
                j <= detectors.len(),
                forall|a: int, b: int|
                    0 <= a < names.len() && 0 <= b < names.len() && #[trigger] names@[a]@
                        == #[trigger] names@[b]@ ==> a == b,
                forall|n: Seq<char>|
                    names_before(measurements@, i as int, j as int).contains(n) <==> exists|k: int|
                        0 <= k < names.len() && #[trigger] names@[k]@ == n,
            decreases detectors.len() - j,
        {
            let name = &detectors[j].name;
            let ghost ms = measurements@;
            let ghost old_names = names@;
            if position_of(&names, name).is_none() {
                names.push(name.clone());
            }
            assert forall|n: Seq<char>|
                #[trigger] names_before(ms, i as int, j + 1).contains(n) <==> exists|k: int|
                    0 <= k < names.len() && #[trigger] names@[k]@ == n by {
                if names_before(ms, i as int, j + 1).contains(n) {
                    let (a, b) = choose|a: int, b: int|
                        #![trigger ms[a]@[b]]
                        0 <= a < ms.len() && 0 <= b < ms[a]@.len() && visited_before(
                            a,
                            b,
                            i as int,
                            j + 1,
                        ) && ms[a]@[b].name@ == n;
                    if a == i && b == j {
                        if old_names.len() == names.len() {
                            let k = choose|k: int|
                                0 <= k < old_names.len() && #[trigger] old_names[k]@ == name@;
                            assert(names@[k]@ == n);
                        } else {
                            assert(names@[old_names.len() as int]@ == n);
                        }
                    } else {
                        assert(names_before(ms, i as int, j as int).contains(n));
                        let k = choose|k: int| 0 <= k < old_names.len() && #[trigger] old_names[k]@ == n;
                        assert(names@[k]@ == n);
                    }
                }
                if exists|k: int| 0 <= k < names.len() && #[trigger] names@[k]@ == n {
                    let k = choose|k: int| 0 <= k < names.len() && #[trigger] names@[k]@ == n;
                    if k < old_names.len() {
                        assert(old_names[k]@ == n);
                        assert(names_before(ms, i as int, j as int).contains(n));
                        let (a, b) = choose|a: int, b: int|
                            #![trigger ms[a]@[b]]
                            0 <= a < ms.len() && 0 <= b < ms[a]@.len() && visited_before(
                                a,
                                b,
                                i as int,
                                j as int,
                            ) && ms[a]@[b].name@ == n;
                        assert(visited_before(a, b, i as int, j + 1));
                    } else {
                        assert(ms[i as int]@[j as int].name@ == n);
                        assert(visited_before(i as int, j as int, i as int, j + 1));
                    }
                }
            }
            j += 1;
        }
        assert forall|n: Seq<char>|
            #[trigger] names_before(measurements@, i + 1, 0).contains(n) == names_before(
                measurements@,
                i as int,
                j as int,
            ).contains(n) by {
            let ms = measurements@;
            if names_before(ms, i + 1, 0).contains(n) {
                let (a, b) = choose|a: int, b: int|
                    #![trigger ms[a]@[b]]
                    0 <= a < ms.len() && 0 <= b < ms[a]@.len() && visited_before(a, b, i + 1, 0)
                        && ms[a]@[b].name@ == n;
                assert(visited_before(a, b, i as int, j as int));
            }
            if names_before(ms, i as int, j as int).contains(n) {
                let (a, b) = choose|a: int, b: int|
                    #![trigger ms[a]@[b]]
                    0 <= a < ms.len() && 0 <= b < ms[a]@.len() && visited_before(
                        a,
                        b,
                        i as int,
                        j as int,
                    ) && ms[a]@[b].name@ == n;
                assert(visited_before(a, b, i + 1, 0));
            }
        }
        i += 1;
    }
    assert forall|n: Seq<char>|
        #[trigger] detector_names(measurements@).contains(n) == names_before(
            measurements@,
            i as int,
            0,
        ).contains(n) by {
        let ms = measurements@;
        if detector_names(ms).contains(n) {
            let (a, b) = choose|a: int, b: int|
                #![trigger ms[a]@[b]]
                0 <= a < ms.len() && 0 <= b < ms[a]@.len() && ms[a]@[b].name@ == n;
            assert(visited_before(a, b, i as int, 0));
        }
    }
    names
}

fn entry_position<O, F>(entries: &Vec<FitEntry<O, F>>, name: &String) -> (r: Option<usize>)
    ensures
        r matches Some(k) ==> k < entries.len() && entries@[k as int].name@ == name@,
        r is None ==> !has_name(entries@, name@),
{
    let mut k: usize = 0;
    while k < entries.len()
        invariant
            k <= entries.len(),
            forall|a: int| 0 <= a < k ==> #[trigger] entries@[a].name@ != name@,
        decreases entries.len() - k,
    {
        if same_name(&entries[k].name, name) {
            return Some(k);
        }
        k += 1;
    }
    None
}

impl<O, F> FitRegistry<O, F> {
    #[verifier::type_invariant]
    spec fn inv(self) -> bool {
        unique_names(self.entries@)
    }

    /// A registry with no detector in it.
    pub fn new() -> (r: Self)
        ensures
            r@ == Map::<Seq<char>, (Seq<O>, Option<F>)>::empty(),
    {
        let r = FitRegistry { entries: Vec::new() };
        assert(r@ =~= Map::<Seq<char>, (Seq<O>, Option<F>)>::empty());
        r
    }

    /// The entries, one per detector name, in the order of first occurrence at
    /// the last synchronization.
    pub fn entries(&self) -> (r: &Vec<FitEntry<O, F>>)
        ensures
            unique_names(r@),
            entries_map(r@) == self@,
    {
        proof {
            use_type_invariant(self);
        }
        &self.entries
    }

    /// The entry of the detector called `name`, if there is one.
    pub fn get(&self, name: &String) -> (r: Option<&FitEntry<O, F>>)
        ensures
            r is None <==> !self@.contains_key(name@),
            r matches Some(e) ==> e.name@ == name@ && self@[name@] == (e.observations@, e.fit),
    {
        proof {
            use_type_invariant(self);
        }
        match entry_position(&self.entries, name) {
            Some(k) => {
                proof {
                    lemma_entries_map_at(self.entries@, k as int);
                }
                Some(&self.entries[k])
            },
            None => None,
        }
    }

    fn replace_fit(&mut self, name: &String, fit: Option<F>) -> (r: bool)
        ensures
            r == old(self)@.contains_key(name@),
            r ==> final(self)@ == old(self)@.insert(name@, (old(self)@[name@].0, fit)),
            !r ==> final(self)@ == old(self)@,
    {
        proof {
            use_type_invariant(&*self);
        }
        let mut entries: Vec<FitEntry<O, F>> = Vec::new();
        std::mem::swap(&mut entries, &mut self.entries);
        let ghost before = entries@;
        match entry_position(&entries, name) {
            Some(k) => {
                let mut e = entries.remove(k);
                e.fit = fit;
                entries.insert(k, e);
                proof {
                    let after = entries@;
                    assert(after =~= before.update(k as int, after[k as int]));
                    assert(unique_names(after));
                    lemma_entries_map_at(before, k as int);
                    let expected = entries_map(before).insert(name@, (entries_map(before)[name@].0, fit));
                    assert forall|n: Seq<char>| #[trigger] entries_map(after).contains_key(n) == expected.contains_key(n) by {
                        if has_name(after, n) {
                            let c = choose|c: int| 0 <= c < after.len() && #[trigger] after[c].name@ == n;
                            if c != k {
                                assert(before[c].name@ == n);
                            }
                        }
                        if has_name(before, n) {
                            let c = choose|c: int| 0 <= c < before.len() && #[trigger] before[c].name@ == n;
                            assert(after[c].name@ == n);
                        }
                    }
                    assert forall|n: Seq<char>| #[trigger] entries_map(after).contains_key(n) implies entries_map(after)[n] == expected[n] by {
                        let c = choose|c: int| 0 <= c < after.len() && #[trigger] after[c].name@ == n;
                        lemma_entries_map_at(after, c);
                        if c != k {
                            lemma_entries_map_at(before, c);
                        }
                    }
                    assert(entries_map(after) =~= expected);
                }
                std::mem::swap(&mut entries, &mut self.entries);
                true
            },
            None => {
                std::mem::swap(&mut entries, &mut self.entries);
                false
            },
        }
    }

    /// Records a fit that succeeded for the detector called `name`. Returns
    /// whether there is such a detector; where there is none nothing changes.
    pub fn record_fit(&mut self, name: &String, fit: F) -> (r: bool)
        ensures
            r == old(self)@.contains_key(name@),
            r ==> final(self)@ == old(self)@.insert(name@, (old(self)@[name@].0, Some(fit))),
            !r ==> final(self)@ == old(self)@,
    {
        self.replace_fit(name, Some(fit))
    }

    /// Forgets the fit of the detector called `name`, keeping its observations.
    /// Returns whether there is such a detector; where there is none nothing changes.
    pub fn clear_fit(&mut self, name: &String) -> (r: bool)
        ensures
            r == old(self)@.contains_key(name@),
            r ==> final(self)@ == old(self)@.insert(name@, (old(self)@[name@].0, None)),
            !r ==> final(self)@ == old(self)@,
    {
        self.replace_fit(name, None)
    }
}

impl<O: Copy, F> FitRegistry<O, F> {
    /// Rebuilds the registry from `measurements`: one entry for each detector name
    /// that occurs in them, holding that name's observations pooled over all
    /// measurements. A name seen before keeps its fit; a new name starts
    /// without one; a name that no longer occurs is dropped.
    pub fn synchronize(&mut self, measurements: &Vec<Vec<DetectorObservations<O>>>)
        ensures
            is_synchronized(old(self)@, final(self)@, measurements@),
    {
        proof {
            use_type_invariant(&*self);
        }
        let names = distinct_detector_names(measurements);
        let mut previous: Vec<FitEntry<O, F>> = Vec::new();
        std::mem::swap(&mut previous, &mut self.entries);
        let ghost old_entries = previous@;
        let ghost old_map = entries_map(old_entries);
        let mut fresh: Vec<FitEntry<O, F>> = Vec::new();
        let mut t: usize = 0;
        while t < names.len()
            invariant
                forall|a: int, b: int|
                    0 <= a < names.len() && 0 <= b < names.len() && #[trigger] names@[a]@
                        == #[trigger] names@[b]@ ==> a == b,
                old_map == entries_map(old_entries),
                unique_names(old_entries),
                t <= names.len(),
                fresh.len() == t,
                forall|idx: int|
                    0 <= idx < t ==> (#[trigger] fresh@[idx]).name@ == names@[idx]@
                        && fresh@[idx].observations@ == pooled(measurements@, names@[idx]@)
                        && fresh@[idx].fit == synchronized_entry(
                        old_map,
                        measurements@,
                        names@[idx]@,
                    ).1,
                unique_names(previous@),
                forall|n: Seq<char>|
                    #[trigger] has_name(previous@, n) <==> (has_name(old_entries, n) && !exists|
                        idx: int,
                    | 0 <= idx < t && #[trigger] names@[idx]@ == n),
                forall|k: int|
                    0 <= k < previous.len() ==> old_map.contains_key(#[trigger] previous@[k].name@)
                        && old_map[previous@[k].name@].1 == previous@[k].fit,
            decreases names.len() - t,
        {
            let name = &names[t];
            let observations = pooled_observations(measurements, name);
            let ghost prev = previous@;
            let fit = match entry_position(&previous, name) {
                Some(k) => {
                    let e = previous.remove(k);
                    proof {
                        let now = previous@;
                        assert(now =~= prev.remove(k as int));
                        assert forall|a: int, b: int|
                            0 <= a < now.len() && 0 <= b < now.len() && #[trigger] now[a].name@
                                == #[trigger] now[b].name@ implies a == b by {
                            let a2 = if a < k { a } else { a + 1 };
                            let b2 = if b < k { b } else { b + 1 };
                            assert(prev[a2].name@ == prev[b2].name@);
                        }
                        assert forall|c: int| 0 <= c < now.len() implies old_map.contains_key(
                            #[trigger] now[c].name@,
                        ) && old_map[now[c].name@].1 == now[c].fit by {
                            let c2 = if c < k { c } else { c + 1 };
                            assert(now[c] == prev[c2]);
                        }
                        assert forall|n: Seq<char>| #[trigger]
                            has_name(now, n) <==> (has_name(old_entries, n) && !exists|idx: int|
                                0 <= idx < t + 1 && #[trigger] names@[idx]@ == n) by {
                            if has_name(now, n) {
                                let c = choose|c: int| 0 <= c < now.len() && #[trigger] now[c].name@ == n;
                                let c2 = if c < k { c } else { c + 1 };
                                assert(prev[c2].name@ == n);
                                assert(has_name(prev, n));
                                assert(c2 != k);
                                if exists|idx: int| 0 <= idx < t + 1 && #[trigger] names@[idx]@ == n {
                                    let idx = choose|idx: int| 0 <= idx < t + 1 && #[trigger] names@[idx]@ == n;
                                    if idx == t {
                                        assert(prev[k as int].name@ == n);
                                    } else {
                                        assert(names@[idx]@ == n);
                                    }
                                }
                            }
                            if has_name(old_entries, n) && !exists|idx: int|
                                0 <= idx < t + 1 && #[trigger] names@[idx]@ == n {
                                assert(names@[t as int]@ != n);
                                assert(!exists|idx: int| 0 <= idx < t && #[trigger] names@[idx]@ == n) by {
                                    if exists|idx: int| 0 <= idx < t && #[trigger] names@[idx]@ == n {
                                        let idx = choose|idx: int| 0 <= idx < t && #[trigger] names@[idx]@ == n;
                                        assert(0 <= idx < t + 1 && names@[idx]@ == n);
                                    }
                                }
                                assert(has_name(prev, n));
                                let c = choose|c: int| 0 <= c < prev.len() && #[trigger] prev[c].name@ == n;
                                assert(c != k);
                                let c3 = if c < k { c } else { c - 1 };
                                assert(now[c3].name@ == n);
                            }
                        }
                    }
                    e.fit
                },
                None => {
                    proof {
                        let n = name@;
                        assert(!has_name(old_entries, n)) by {
                            if has_name(old_entries, n) {
                                assert forall|idx: int| 0 <= idx < t implies #[trigger] names@[idx]@ != n by {
                                    assert(idx != t);
                                }
                            }
                        }
                        assert forall|m: Seq<char>| #[trigger]
                            has_name(prev, m) <==> (has_name(old_entries, m) && !exists|idx: int|
                                0 <= idx < t + 1 && #[trigger] names@[idx]@ == m) by {
                            if has_name(old_entries, m) && !exists|idx: int|
                                0 <= idx < t && #[trigger] names@[idx]@ == m {
                                assert(m != n);
                                if exists|idx: int| 0 <= idx < t + 1 && #[trigger] names@[idx]@ == m {
                                    let idx = choose|idx: int| 0 <= idx < t + 1 && #[trigger] names@[idx]@ == m;
                                    assert(idx != t);
                                }
                            }
                            if exists|idx: int| 0 <= idx < t && #[trigger] names@[idx]@ == m {
                                let idx = choose|idx: int| 0 <= idx < t && #[trigger] names@[idx]@ == m;
                                assert(0 <= idx < t + 1 && names@[idx]@ == m);
                            }
                        }
                    }
                    None
                },
            };
            fresh.push(FitEntry { name: name.clone(), observations, fit });
            t += 1;
        }
        proof {
            let ms = measurements@;
            let f = fresh@;
            assert forall|a: int, b: int|
                0 <= a < f.len() && 0 <= b < f.len() && #[trigger] f[a].name@ == #[trigger] f[b].name@ implies a
                    == b by {
                assert(names@[a]@ == names@[b]@);
            }
            assert forall|n: Seq<char>| #[trigger] entries_map(f).contains_key(n) == detector_names(ms).contains(n) by {
                if has_name(f, n) {
                    let c = choose|c: int| 0 <= c < f.len() && #[trigger] f[c].name@ == n;
                    assert(names@[c]@ == n);
                }
                if detector_names(ms).contains(n) {
                    let c = choose|c: int| 0 <= c < names.len() && #[trigger] names@[c]@ == n;
                    assert(f[c].name@ == n);
                }
            }
            assert(entries_map(f).dom() =~= detector_names(ms));
            assert forall|n: Seq<char>| #[trigger] entries_map(f).contains_key(n) implies entries_map(f)[n]
                == synchronized_entry(old_map, ms, n) by {
                let c = choose|c: int| 0 <= c < f.len() && #[trigger] f[c].name@ == n;
                lemma_entries_map_at(f, c);
            }
        }
        self.entries = fresh;
    }
}


/// Synchronizing is idempotent: a second synchronization with the same
/// measurements leaves the registry as the first one left it.
pub proof fn lemma_synchronize_idempotent<O, F>(
    first: Map<Seq<char>, (Seq<O>, Option<F>)>,
    second: Map<Seq<char>, (Seq<O>, Option<F>)>,
    third: Map<Seq<char>, (Seq<O>, Option<F>)>,
    measurements: Seq<Vec<DetectorObservations<O>>>,
)
    requires
        is_synchronized(first, second, measurements),
        is_synchronized(second, third, measurements),
    ensures
        third == second,
{
    assert forall|n: Seq<char>| #[trigger] third.contains_key(n) implies third[n] == second[n] by {
        assert(second.contains_key(n));
    }
    assert(third =~= second);
}

} // verus!
