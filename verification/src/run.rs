//! Text drawn as shaped runs instead of single glyphs: consecutive ASCII cells
//! with one style and color, shaped together so the font's ligature
//! substitutions apply.

use vstd::prelude::*;
use vstd::string::*;

verus! {

/// A run being collected while walking a row, at cell-left `x`. Its color, with
/// whatever alpha, is carried as the caller draws in it.
pub struct Run<C> {
    pub text: String,
    pub style: u8,
    pub fg: C,
    pub x: i64,
}

impl<C> Run<C> {
    pub open spec fn key(self) -> RunKey {
        (self.style, self.text@)
    }

    /// One ASCII cell.
    pub open spec fn single(self) -> bool {
        self.text@.len() == 1 && (self.text@[0] as u32) < 128
    }
}

/// A shaped run, its glyphs, and the recording it was last drawn in.
pub struct Entry<G> {
    pub style: u8,
    pub text: String,
    pub glyphs: G,
    pub used: u64,
}

/// Content of a run and the font it is drawn in.
pub type RunKey = (u8, Seq<char>);

/// Shaped runs by content and style font, kept exactly as large as the last
/// recording. Scrolled rows keep the same content, so they are found again.
pub struct RunCache<G> {
    pub entries: Vec<Entry<G>>,
    pub generation: u64,
}

/// How a run is drawn.
#[derive(Clone, Copy, Debug, PartialEq, Eq, Structural)]
pub enum RunStep {
    /// A single cell; alone it has no ligature context and skips shaping.
    Char(u32),
    /// The glyphs of this entry.
    Cached(usize),
    /// Shape it and add it.
    Shape,
}

impl<G> RunCache<G> {
    pub open spec fn keys(self) -> Seq<RunKey> {
        self.entries@.map_values(|e: Entry<G>| (e.style, e.text@))
    }

    /// Every run is there once, and none was drawn in a recording to come.
    pub open spec fn wf(self) -> bool {
        &&& self.keys().no_duplicates()
        &&& forall|i: int| 0 <= i < self.entries@.len() ==> (#[trigger] self.entries@[i]).used <= self.generation
    }

    /// The run was drawn in the present recording.
    pub open spec fn drawn(self, key: RunKey) -> bool {
        exists|i: int| 0 <= i < self.entries@.len() && (#[trigger] self.entries@[i]).used == self.generation && self.keys()[i] == key
    }

    /// The runs drawn in the present recording.
    pub open spec fn drawn_runs(self) -> Set<RunKey> {
        Set::new(|key: RunKey| self.drawn(key))
    }

    /// The recording ended: what was drawn in it is kept, in entry order, and
    /// the next one begins.
    pub open spec fn ended(self, after: RunCache<G>) -> bool {
        &&& after.entries@ == self.kept(self.entries@.len() as int)
        &&& after.generation == self.generation + 1
    }

    pub fn new() -> (c: RunCache<G>)
        ensures
            c.wf(),
            c.keys().len() == 0,
            c.generation == 0,
            c.drawn_runs() == Set::<RunKey>::empty(),
    {
        RunCache { entries: Vec::new(), generation: 0 }
    }

    /// Draw one run: tells how. A run found is marked as drawn.
    pub fn draw<C>(&mut self, run: &Run<C>) -> (step: RunStep)
        requires
            old(self).wf(),
        ensures
            final(self).wf(),
            final(self).keys() == old(self).keys(),
            final(self).generation == old(self).generation,
            final(self).drawn_runs() == (if step is Cached { old(self).drawn_runs().insert(run.key()) } else { old(self).drawn_runs() }),
            run.single() ==> step == RunStep::Char(run.text@[0] as u32) && *final(self) == *old(self),
            !run.single() && !old(self).keys().contains(run.key()) ==> step is Shape && *final(self) == *old(self),
            !run.single() && old(self).keys().contains(run.key()) ==> {
                &&& step is Cached
                &&& step->Cached_0 < final(self).entries@.len()
                &&& final(self).keys()[step->Cached_0 as int] == run.key()
                &&& final(self).entries@ == old(self).entries@.update(
                    step->Cached_0 as int,
                    (Entry { used: old(self).generation, ..old(self).entries@[step->Cached_0 as int] }),
                )
            },
    {
        if run.text.as_str().unicode_len() == 1 {
            let first: u32 = run.text.as_str().get_char(0) as u32;
            if first < 128 {
                return RunStep::Char(first);
            }
        }
        let mut i: usize = 0;
        while i < self.entries.len()
            invariant
                i <= self.entries@.len(),
                *self == *old(self),
                self.wf(),
                !run.single(),
                forall|k: int| 0 <= k < i ==> self.keys()[k] != run.key(),
            decreases self.entries@.len() - i,
        {
            assert(self.keys()[i as int] == (self.entries@[i as int].style, self.entries@[i as int].text@));
            if self.entries[i].style == run.style && self.entries[i].text == run.text {
                let ghost keys = self.keys();
                let ghost before = self.entries@;
                self.entries[i].used = self.generation;
                proof {
                    assert(self.entries@ == before.update(i as int, Entry { used: old(self).generation, ..before[i as int] }));
                    assert(self.keys() == keys);
                    assert(keys.contains(run.key()));
                    self.marked(*old(self), i as int);
                }
                return RunStep::Cached(i);
            }
            i = i + 1;
        }
        RunStep::Shape
    }

    /// Add a run that was shaped, as drawn. Tells its entry.
    pub fn add_run(&mut self, style: u8, text: String, glyphs: G) -> (at: usize)
        requires
            old(self).wf(),
            !old(self).keys().contains((style, text@)),
        ensures
            final(self).wf(),
            final(self).generation == old(self).generation,
            at == old(self).entries@.len(),
            final(self).entries@ == old(self).entries@.push(Entry { style, text, glyphs, used: old(self).generation }),
            final(self).drawn_runs() == old(self).drawn_runs().insert((style, text@)),
    {
        let ghost key = (style, text@);
        let ghost keys = self.keys();
        let at: usize = self.entries.len();
        self.entries.push(Entry { style, text, glyphs, used: self.generation });
        proof {
            assert(self.keys() == keys.push(key));
            assert forall|i: int, j: int| 0 <= i < j < self.keys().len() implies self.keys()[i] != self.keys()[j] by {
                if j == keys.len() {
                    assert(keys.contains(keys[i]));
                }
            }
            assert(self.entries@[at as int].used == self.generation);
            assert(self.keys()[at as int] == key);
            let was = *old(self);
            assert forall|k: RunKey| self.drawn(k) <==> was.drawn(k) || k == key by {
                if self.drawn(k) {
                    let i = choose|i: int|
                        0 <= i < self.entries@.len() && (#[trigger] self.entries@[i]).used == self.generation && self.keys()[i] == k;
                    if i < at {
                        assert(was.entries@[i].used == was.generation && was.keys()[i] == k);
                    }
                }
                if was.drawn(k) {
                    let i = choose|i: int|
                        0 <= i < was.entries@.len() && (#[trigger] was.entries@[i]).used == was.generation && was.keys()[i] == k;
                    assert(self.entries@[i].used == self.generation && self.keys()[i] == k);
                }
            }
            assert(self.drawn_runs() =~= was.drawn_runs().insert(key));
        }
        at
    }

    /// Marking an entry adds its run to those drawn.
    proof fn marked(self, was: RunCache<G>, at: int)
        requires
            was.wf(),
            0 <= at < was.entries@.len(),
            self.generation == was.generation,
            self.entries@ == was.entries@.update(at, (Entry { used: was.generation, ..was.entries@[at] })),
        ensures
            self.keys() == was.keys(),
            self.drawn_runs() == was.drawn_runs().insert(was.keys()[at]),
    {
        assert(self.keys() =~= was.keys());
        assert(self.entries@[at].used == self.generation);
        assert forall|k: RunKey| self.drawn(k) <==> was.drawn(k) || k == was.keys()[at] by {
            if self.drawn(k) {
                let i = choose|i: int|
                    0 <= i < self.entries@.len() && (#[trigger] self.entries@[i]).used == self.generation && self.keys()[i] == k;
                if i != at {
                    assert(was.entries@[i].used == was.generation && was.keys()[i] == k);
                }
            }
            if was.drawn(k) {
                let i = choose|i: int|
                    0 <= i < was.entries@.len() && (#[trigger] was.entries@[i]).used == was.generation && was.keys()[i] == k;
                assert(self.entries@[i].used == self.generation && self.keys()[i] == k);
            }
        }
        assert(self.drawn_runs() =~= was.drawn_runs().insert(was.keys()[at]));
    }

    /// The entries kept of the first `n`: those drawn since the last call.
    pub open spec fn kept(self, n: int) -> Seq<Entry<G>>
        decreases n,
    {
        if n <= 0 {
            seq![]
        } else if self.entries@[n - 1].used == self.generation {
            self.kept(n - 1).push(self.entries@[n - 1])
        } else {
            self.kept(n - 1)
        }
    }

    /// Drop runs not drawn since the last call.
    pub fn end_frame(&mut self)
        requires
            old(self).wf(),
            old(self).generation < u64::MAX,
        ensures
            final(self).wf(),
            old(self).ended(*final(self)),
            final(self).keys().to_set() == old(self).drawn_runs(),
            final(self).drawn_runs() == Set::<RunKey>::empty(),
    {
        let ghost was = *self;
        let mut entries: Vec<Entry<G>> = Vec::new();
        std::mem::swap(&mut entries, &mut self.entries);
        let ghost all = entries@;
        // Taken from the back, so that both passes keep the order.
        let mut reversed: Vec<Entry<G>> = Vec::new();
        let mut n: usize = entries.len();
        while n > 0
            invariant
                n <= all.len(),
                all == was.entries@,
                entries@ == all.take(n as int),
                reversed@ == all.skip(n as int).reverse(),
            decreases n,
        {
            let entry = entries.pop();
            n = n - 1;
            if let Some(entry) = entry {
                reversed.push(entry);
                assert(reversed@ == all.skip(n as int).reverse());
            }
            assert(entries@ == all.take(n as int));
        }
        let mut i: usize = 0;
        let total: usize = reversed.len();
        assert(all.skip(0) == all);
        while i < total
            invariant
                i <= total,
                total == all.len(),
                all == was.entries@,
                was.generation == self.generation,
                reversed@ == all.skip(i as int).reverse(),
                entries@ == was.kept(i as int),
            decreases total - i,
        {
            let entry = reversed.pop();
            i = i + 1;
            if let Some(entry) = entry {
                assert(entry == all[i - 1]);
                if entry.used == self.generation {
                    entries.push(entry);
                }
            }
            assert(reversed@ == all.skip(i as int).reverse());
        }
        self.entries = entries;
        self.generation = self.generation + 1;
        proof {
            was.kept_facts(all.len() as int);
            cache_holds_the_last_recording(was, *self);
        }
    }

    /// Kept entries were drawn, stand in their order, and are all that were.
    proof fn kept_facts(self, n: int)
        requires
            self.wf(),
            0 <= n <= self.entries@.len(),
        ensures
            ({
                let keys = self.kept(n).map_values(|e: Entry<G>| (e.style, e.text@));
                &&& keys.no_duplicates()
                &&& forall|i: int| 0 <= i < self.kept(n).len() ==> (#[trigger] self.kept(n)[i]).used == self.generation
                &&& forall|key: RunKey| #[trigger]
                    keys.contains(key) <==> exists|i: int|
                        0 <= i < n && (#[trigger] self.entries@[i]).used == self.generation && self.keys()[i] == key
            }),
        decreases n,
    {
        let keys = self.kept(n).map_values(|e: Entry<G>| (e.style, e.text@));
        if n > 0 {
            self.kept_facts(n - 1);
            let before = self.kept(n - 1).map_values(|e: Entry<G>| (e.style, e.text@));
            let entry = self.entries@[n - 1];
            let last = self.keys()[n - 1];
            if entry.used == self.generation {
                assert(keys == before.push(last));
                assert(!before.contains(last)) by {
                    if before.contains(last) {
                        let i = choose|i: int| 0 <= i < n - 1 && (#[trigger] self.entries@[i]).used == self.generation && self.keys()[i] == last;
                        assert(self.keys()[i] != self.keys()[n - 1]);
                    }
                }
                assert forall|i: int, j: int| 0 <= i < j < keys.len() implies keys[i] != keys[j] by {
                    if j == before.len() {
                        assert(before.contains(before[i]));
                    }
                }
            }
            assert forall|key: RunKey| #[trigger] keys.contains(key) <==> exists|i: int|
                0 <= i < n && (#[trigger] self.entries@[i]).used == self.generation && self.keys()[i] == key by {
                if keys.contains(key) {
                    let j = choose|j: int| 0 <= j < keys.len() && keys[j] == key;
                    if j < before.len() {
                        assert(before[j] == key);
                        assert(before.contains(key));
                        let i = choose|i: int| 0 <= i < n - 1 && (#[trigger] self.entries@[i]).used == self.generation && self.keys()[i] == key;
                        assert(self.entries@[i].used == self.generation);
                    } else {
                        assert(self.entries@[n - 1].used == self.generation);
                    }
                }
                if exists|i: int| 0 <= i < n && (#[trigger] self.entries@[i]).used == self.generation && self.keys()[i] == key {
                    let i = choose|i: int| 0 <= i < n && (#[trigger] self.entries@[i]).used == self.generation && self.keys()[i] == key;
                    if i < n - 1 {
                        assert(before.contains(key));
                        let j = choose|j: int| 0 <= j < before.len() && before[j] == key;
                        assert(keys[j] == key);
                    } else {
                        assert(keys[keys.len() - 1] == key);
                    }
                }
            }
        }
    }
}

/// The cache is exactly as large as the last recording: after it ends, the
/// runs held are those drawn in it, and none is drawn yet in the next.
pub proof fn cache_holds_the_last_recording<G>(before: RunCache<G>, after: RunCache<G>)
    requires
        before.wf(),
        before.ended(after),
    ensures
        after.wf(),
        after.keys().to_set() == before.drawn_runs(),
        after.keys().len() == before.drawn_runs().len(),
        after.drawn_runs() == Set::<RunKey>::empty(),
{
    before.kept_facts(before.entries@.len() as int);
    assert(after.keys() == before.kept(before.entries@.len() as int).map_values(|e: Entry<G>| (e.style, e.text@)));
    assert forall|key: RunKey| after.keys().contains(key) <==> before.drawn(key) by {}
    assert(after.keys().to_set() =~= before.drawn_runs());
    after.keys().unique_seq_to_set();
    assert(after.drawn_runs() =~= Set::<RunKey>::empty());
}

/// A recording in which nothing is drawn leaves the cache empty.
pub proof fn idle_recordings_empty_the_cache<G>(before: RunCache<G>, between: RunCache<G>, after: RunCache<G>)
    requires
        before.wf(),
        before.ended(between),
        between.ended(after),
    ensures
        after.keys().len() == 0,
{
    cache_holds_the_last_recording(before, between);
    cache_holds_the_last_recording(between, after);
    assert(after.keys().len() == Set::<RunKey>::empty().len());
}

/// Whatever the cache held when a recording began, it holds exactly the runs
/// drawn once the recording has ended. `states` are those from its beginning
/// to its end, one for each of the runs `drawn` in it, found or shaped.
pub proof fn recording_keeps_what_it_draws<G>(states: Seq<RunCache<G>>, drawn: Seq<RunKey>, after: RunCache<G>)
    requires
        states.len() == drawn.len() + 1,
        forall|i: int| 0 <= i < states.len() ==> (#[trigger] states[i]).wf(),
        states[0].drawn_runs() == Set::<RunKey>::empty(),
        forall|i: int|
            0 <= i < drawn.len() ==> states[i + 1].drawn_runs() == states[i].drawn_runs().insert(#[trigger] drawn[i]),
        states.last().ended(after),
    ensures
        after.keys().to_set() == drawn.to_set(),
        after.keys().len() == drawn.to_set().len(),
{
    drawn_so_far(states, drawn, drawn.len() as int);
    assert(drawn.take(drawn.len() as int) =~= drawn);
    cache_holds_the_last_recording(states.last(), after);
}

proof fn drawn_so_far<G>(states: Seq<RunCache<G>>, drawn: Seq<RunKey>, n: int)
    requires
        0 <= n <= drawn.len(),
        states.len() == drawn.len() + 1,
        states[0].drawn_runs() == Set::<RunKey>::empty(),
        forall|i: int|
            0 <= i < drawn.len() ==> states[i + 1].drawn_runs() == states[i].drawn_runs().insert(#[trigger] drawn[i]),
    ensures
        states[n].drawn_runs() == drawn.take(n).to_set(),
    decreases n,
{
    if n == 0 {
        assert(drawn.take(0).to_set() =~= Set::<RunKey>::empty());
    } else {
        drawn_so_far(states, drawn, n - 1);
        let before = drawn.take(n - 1);
        let now = drawn.take(n);
        assert(now == before.push(drawn[n - 1]));
        assert forall|k: RunKey| now.contains(k) <==> before.contains(k) || k == drawn[n - 1] by {
            if before.contains(k) {
                let i = choose|i: int| 0 <= i < before.len() && before[i] == k;
                assert(now[i] == k);
            }
            assert(now[n - 1] == drawn[n - 1]);
        }
        assert(now.to_set() =~= before.to_set().insert(drawn[n - 1]));
    }
}

/// A single ASCII cell is drawn as its character, shaped or not; anything else
/// is never drawn so.
pub proof fn single_cells_are_drawn_plainly<G, C>(cache: &mut RunCache<G>, run: &Run<C>, step: RunStep)
    requires
        call_ensures(RunCache::<G>::draw::<C>, (cache, run), step),
    ensures
        step is Char <==> run.text@.len() == 1 && (run.text@[0] as u32) < 128,
        step is Char ==> step->Char_0 == run.text@[0] as u32,
        step is Cached ==> step->Cached_0 < final(cache).entries@.len() && final(cache).entries@[step->Cached_0 as int].style == run.style
            && final(cache).entries@[step->Cached_0 as int].text@ == run.text@,
{
    if step is Cached {
        assert(final(cache).keys()[step->Cached_0 as int] == run.key());
    }
}

/// What was shaped is found again, with its glyphs, wherever its text and style
/// come up.
pub proof fn runs_are_shaped_once<G, C>(cache: &mut RunCache<G>, then: &mut RunCache<G>, style: u8, text: String, glyphs: G, at: usize, run: &Run<C>, step: RunStep)
    requires
        call_ensures(RunCache::<G>::add_run, (cache, style, text, glyphs), at),
        call_ensures(RunCache::<G>::draw::<C>, (then, run), step),
        *final(cache) == *old(then),
        run.style == style && run.text@ == text@,
        run.text@.len() != 1 || run.text@[0] as u32 >= 128,
    ensures
        step == RunStep::Cached(at),
        final(then).entries@[at as int].glyphs == glyphs,
{
    let keys = old(then).keys();
    assert(keys[at as int] == run.key());
    assert(keys.contains(run.key()));
    assert(final(then).keys()[step->Cached_0 as int] == run.key());
}

proof fn kept_entry<G>(cache: RunCache<G>, n: int, i: int)
    requires
        0 <= i < n <= cache.entries@.len(),
        cache.entries@[i].used == cache.generation,
    ensures
        cache.kept(n).contains(cache.entries@[i]),
    decreases n,
{
    if i == n - 1 {
        assert(cache.kept(n)[cache.kept(n - 1).len() as int] == cache.entries@[i]);
    } else {
        kept_entry(cache, n - 1, i);
        let rest = cache.kept(n - 1);
        let j = choose|j: int| 0 <= j < rest.len() && rest[j] == cache.entries@[i];
        assert(cache.kept(n)[j] == rest[j]);
    }
}

/// A run that was drawn in a recording is found in the next one, with the same
/// glyphs.
pub proof fn drawn_runs_are_found_again<G, C>(
    cache: &mut RunCache<G>,
    ending: &mut RunCache<G>,
    then: &mut RunCache<G>,
    run: &Run<C>,
    step: RunStep,
    again: RunStep,
)
    requires
        call_ensures(RunCache::<G>::draw::<C>, (cache, run), step),
        *final(cache) == *old(ending),
        call_ensures(RunCache::<G>::end_frame, (ending,), ()),
        *final(ending) == *old(then),
        call_ensures(RunCache::<G>::draw::<C>, (then, run), again),
        step is Cached,
    ensures
        again is Cached,
        final(then).entries@[again->Cached_0 as int].glyphs == final(cache).entries@[step->Cached_0 as int].glyphs,
{
    let was = *final(cache);
    let i = step->Cached_0 as int;
    assert(was.entries@[i].used == was.generation);
    kept_entry(was, was.entries@.len() as int, i);
    let next = *old(then);
    let e = was.entries@[i];
    let j = choose|j: int| 0 <= j < next.entries@.len() && next.entries@[j] == e;
    assert(was.keys()[i] == run.key());
    assert(next.keys()[j] == run.key());
    assert(next.keys().contains(run.key()));
    let k = again->Cached_0 as int;
    assert(final(then).keys()[k] == run.key());
    assert(next.keys()[k] == next.keys()[j]);
    assert(k == j);
}

/// A run that no draw asked for in a whole recording is shaped anew.
pub proof fn undrawn_runs_are_forgotten<G, C>(ending: &mut RunCache<G>, next: &mut RunCache<G>, then: &mut RunCache<G>, run: &Run<C>, step: RunStep)
    requires
        call_ensures(RunCache::<G>::end_frame, (ending,), ()),
        *final(ending) == *old(next),
        call_ensures(RunCache::<G>::end_frame, (next,), ()),
        *final(next) == *old(then),
        call_ensures(RunCache::<G>::draw::<C>, (then, run), step),
    ensures
        step !is Cached,
        final(next).entries@.len() == 0,
        final(next).generation == old(ending).generation + 2,
{
    let after = *final(next);
    if after.entries@.len() > 0 {
        assert(after.keys().contains(after.keys()[0]));
        assert(after.keys().to_set().contains(after.keys()[0]));
    }
    if step is Cached {
        assert(final(then).keys().len() == after.keys().len());
    }
}

/// A fresh cache finds nothing.
pub proof fn fresh_caches_shape<G, C>(fresh: RunCache<G>, cache: &mut RunCache<G>, run: &Run<C>, step: RunStep)
    requires
        call_ensures(RunCache::<G>::new, (), fresh),
        *old(cache) == fresh,
        call_ensures(RunCache::<G>::draw::<C>, (cache, run), step),
    ensures
        step !is Cached,
{
}

} // verus!
