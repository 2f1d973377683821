//! The addon host: an ordered collection of loaded addons, with load and
//! unload, the before-add-note pipeline, menu aggregation and click routing.

use vstd::prelude::*;

use crate::note::{
    hook_result_error, lemma_trapped_addon_is_skipped, returned_edit, run_pipeline, AddonError, AddonNote, DeckId, Note, NoteView,
};

verus! {

/// What an addon declares about itself when it is initialised.
#[derive(Clone, Debug)]
pub struct AddonManifest {
    pub name: String,
    pub tool_menu_entries: Vec<String>,
}

/// One entry of the tools menu: the addon that declared it, its index among
/// that addon's entries, and its label.
#[derive(Clone, Debug)]
pub struct AddonMenuEntry {
    pub addon_id: u32,
    pub menu_idx: u32,
    pub label: String,
}

impl View for AddonMenuEntry {
    type V = (int, int, String);

    open spec fn view(&self) -> (int, int, String) {
        (self.addon_id as int, self.menu_idx as int, self.label)
    }
}

/// The per-addon state behind the capability surface that addons import.
#[derive(Clone, Debug)]
pub struct AddonHostState {}

impl AddonHostState {
    pub fn new() -> (r: AddonHostState) {
        AddonHostState {  }
    }
}

/// One instantiated addon, as the sandboxed engine hands it out. Every call
/// runs the addon's code in isolation; a fault inside it comes back as an
/// error rather than ending the process.
pub trait AddonGuest: Sized {
    /// Runs the addon's `init` export.
    fn init(&mut self) -> Result<AddonManifest, AddonError>;

    /// Runs the addon's click handler for the entry `menu_idx`.
    fn on_tool_menu_entry_clicked(&mut self, menu_idx: u32) -> Result<(), AddonError>;

    /// Runs the addon's before-add-note hook on a snapshot of the note.
    fn before_add_note(&mut self, note: &AddonNote, did: DeckId) -> Result<
        Option<AddonNote>,
        AddonError,
    >;
}

/// The sandboxed engine: compiles an addon binary and instantiates it
/// against the capability surface.
pub trait AddonRuntime: Sized {
    type Guest: AddonGuest;

    fn instantiate(&self, addon_bytes: &[u8]) -> Result<Self::Guest, AddonError>;
}

/// Everything the host keeps of one loaded addon.
pub struct AddonContext<G> {
    guest: G,
    menu_entries: Vec<String>,
    /// The binary the addon was loaded from.
    origin: Ghost<Seq<u8>>,
}

/// One call of an addon's before-add-note hook during a dispatch pass: the
/// addon, the snapshot and deck id it was given, and what it returned.
pub struct HookCall {
    pub addon_id: int,
    pub snapshot: NoteView,
    pub did: DeckId,
    pub result: Result<Option<AddonNote>, AddonError>,
}

/// One call of an addon's click handler: the addon, the menu index it was
/// given, and what it returned.
pub struct ClickCall {
    pub addon_id: int,
    pub menu_idx: u32,
    pub result: Result<(), AddonError>,
}

/// What the hook calls of a pass contribute to the note, in order.
pub open spec fn hook_returns(calls: Seq<HookCall>) -> Seq<Option<NoteView>> {
    calls.map_values(|c: HookCall| returned_edit(c.result))
}

/// `calls` is a dispatch pass of `did` starting from the note `start`: call
/// `i` went to addon `i`, with the deck id, and with a snapshot of the note
/// as the calls before it left it.
pub open spec fn is_dispatch(start: NoteView, did: DeckId, calls: Seq<HookCall>) -> bool {
    forall|i: int|
        0 <= i < calls.len() ==> {
            &&& (#[trigger] calls[i]).addon_id == i
            &&& calls[i].did == did
            &&& calls[i].snapshot == run_pipeline(start, hook_returns(calls.take(i)))
        }
}

/// The addons skipped in a pass, in order, each with the error it was
/// skipped for.
pub open spec fn skipped_of(calls: Seq<HookCall>) -> Seq<(int, AddonError)>
    decreases calls.len(),
{
    if calls.len() == 0 {
        Seq::empty()
    } else {
        let rest = skipped_of(calls.drop_last());
        match hook_result_error(calls.last().snapshot, calls.last().result) {
            Some(e) => rest.push((calls.last().addon_id, e)),
            None => rest,
        }
    }
}

/// A returned list of skipped addons, as values.
pub open spec fn skipped_view(v: Seq<(u32, AddonError)>) -> Seq<(int, AddonError)> {
    v.map_values(|p: (u32, AddonError)| (p.0 as int, p.1))
}

/// The candidate positions in `0..n` that are not listed in `failed`, in
/// increasing order.
pub open spec fn loaded_positions(n: int, failed: Seq<int>) -> Seq<int>
    decreases n,
{
    if n <= 0 {
        Seq::empty()
    } else if failed.contains(n - 1) {
        loaded_positions(n - 1, failed)
    } else {
        loaded_positions(n - 1, failed).push(n - 1)
    }
}

/// The positions of a returned list of failures.
pub open spec fn failed_positions(v: Seq<(usize, AddonError)>) -> Seq<int> {
    v.map_values(|p: (usize, AddonError)| p.0 as int)
}

/// The binaries of the candidates at `positions`.
pub open spec fn candidates_at(candidates: Seq<Vec<u8>>, positions: Seq<int>) -> Seq<Seq<u8>> {
    positions.map_values(|j: int| candidates[j]@)
}

proof fn lemma_loaded_positions_ignore_later(n: int, failed: Seq<int>, k: int)
    requires
        0 <= n <= k,
    ensures
        loaded_positions(n, failed.push(k)) == loaded_positions(n, failed),
    decreases n,
{
    if n > 0 {
        assert(failed.push(k).contains(n - 1) == failed.contains(n - 1)) by {
            if failed.push(k).contains(n - 1) {
                let j = choose|j: int| 0 <= j < failed.push(k).len() && failed.push(k)[j] == n - 1;
                assert(j < failed.len());
                assert(failed[j] == n - 1);
            }
            if failed.contains(n - 1) {
                let j = choose|j: int| 0 <= j < failed.len() && failed[j] == n - 1;
                assert(failed.push(k)[j] == n - 1);
            }
        }
        lemma_loaded_positions_ignore_later(n - 1, failed, k);
    }
}

/// Addon ids and menu indices are `u32`.
pub open spec fn fits_u32_index(n: int) -> bool {
    n <= 0x1_0000_0000
}

/// The entries declared by the addon with id `addon_id`.
pub open spec fn addon_menu_entries(addon_id: int, labels: Seq<String>) -> Seq<(int, int, String)> {
    Seq::new(labels.len(), |j: int| (addon_id, j, labels[j]))
}

/// All entries of all addons, in load order and then in declaration order.
pub open spec fn flatten_menus(menus: Seq<Seq<String>>) -> Seq<(int, int, String)>
    decreases menus.len(),
{
    if menus.len() == 0 {
        Seq::empty()
    } else {
        flatten_menus(menus.drop_last()) + addon_menu_entries(menus.len() - 1, menus.last())
    }
}

/// The entries of a returned menu list, as values.
pub open spec fn menu_entries_view(v: Seq<AddonMenuEntry>) -> Seq<(int, int, String)> {
    v.map_values(|e: AddonMenuEntry| e@)
}

proof fn lemma_flatten_step(menus: Seq<Seq<String>>, i: int)
    requires
        0 <= i < menus.len(),
    ensures
        flatten_menus(menus.take(i + 1)) == flatten_menus(menus.take(i)) + addon_menu_entries(
            i,
            menus[i],
        ),
{
    assert(menus.take(i + 1).drop_last() =~= menus.take(i));
}

/// A newly loaded addon gets as its id the number of addons loaded before
/// it: its entries follow all earlier ones.
pub proof fn lemma_next_addon_id(menus: Seq<Seq<String>>, labels: Seq<String>)
    ensures
        flatten_menus(menus.push(labels)) == flatten_menus(menus) + addon_menu_entries(
            menus.len() as int,
            labels,
        ),
{
    assert(menus.push(labels).drop_last() =~= menus);
}

/// Loading addon `a` and then addon `b` into an empty host gives `a` the id
/// 0 and `b` the id 1.
pub proof fn lemma_ids_follow_load_order(a: Seq<String>, b: Seq<String>)
    ensures
        flatten_menus(seq![a, b]) == addon_menu_entries(0, a) + addon_menu_entries(1, b),
        forall|k: int|
            0 <= k < a.len() ==> flatten_menus(seq![a, b])[k] == (0int, k, #[trigger] a[k]),
        forall|k: int|
            0 <= k < b.len() ==> flatten_menus(seq![a, b])[a.len() + k] == (
                1int,
                k,
                #[trigger] b[k],
            ),
{
    let e = Seq::<Seq<String>>::empty();
    lemma_next_addon_id(e, a);
    lemma_next_addon_id(e.push(a), b);
    assert(e.push(a) =~= seq![a]);
    assert(e.push(a).push(b) =~= seq![a, b]);
    assert(flatten_menus(e) =~= Seq::<(int, int, String)>::empty());
    assert(flatten_menus(seq![a]) =~= addon_menu_entries(0, a));
}

/// With no failures, every candidate position is kept, in order.
pub proof fn lemma_no_failures_keeps_all(n: int)
    requires
        0 <= n,
    ensures
        loaded_positions(n, Seq::<int>::empty()) == Seq::new(n as nat, |i: int| i),
    decreases n,
{
    if n > 0 {
        lemma_no_failures_keeps_all(n - 1);
        assert(!Seq::<int>::empty().contains(n - 1));
        assert(Seq::new((n - 1) as nat, |i: int| i).push(n - 1) =~= Seq::new(n as nat, |i: int| i));
    } else {
        assert(Seq::new(0, |i: int| i) =~= Seq::<int>::empty());
    }
}

/// When no candidate of a batch fails, candidate `i` is the addon with id `i`
/// and nothing else is held.
pub proof fn lemma_batch_without_failures(candidates: Seq<Vec<u8>>)
    ensures
        candidates_at(candidates, loaded_positions(candidates.len() as int, Seq::<int>::empty()))
            == Seq::new(candidates.len(), |i: int| candidates[i]@),
{
    lemma_no_failures_keeps_all(candidates.len() as int);
    assert(candidates_at(candidates, loaded_positions(candidates.len() as int, Seq::<int>::empty()))
        =~= Seq::new(candidates.len(), |i: int| candidates[i]@));
}

/// In a dispatch pass, an addon that traps contributes no edit: the note
/// comes out as if that addon were not loaded, and the addons after it see
/// no edit from it.
pub proof fn lemma_trap_in_dispatch(start: NoteView, did: DeckId, calls: Seq<HookCall>, k: int)
    requires
        is_dispatch(start, did, calls),
        0 <= k < calls.len(),
        calls[k].result is Err,
    ensures
        run_pipeline(start, hook_returns(calls)) == run_pipeline(
            start,
            hook_returns(calls).remove(k),
        ),
        forall|j: int|
            k < j < calls.len() ==> (#[trigger] calls[j]).snapshot == run_pipeline(
                start,
                hook_returns(calls.take(j)).remove(k),
            ),
{
    let rs = hook_returns(calls);
    assert(rs.update(k, None) =~= rs);
    lemma_trapped_addon_is_skipped(start, rs, k);
    assert forall|j: int| k < j < calls.len() implies (#[trigger] calls[j]).snapshot
        == run_pipeline(start, hook_returns(calls.take(j)).remove(k)) by {
        let pre = hook_returns(calls.take(j));
        assert(pre.update(k, None) =~= pre);
        lemma_trapped_addon_is_skipped(start, pre, k);
    }
}

/// Manages the loaded addons. An addon's id is its position in load order.
pub struct AddonHost<R: AddonRuntime> {
    runtime: R,
    addons: Vec<AddonContext<R::Guest>>,
    /// The hook calls of the latest dispatch pass.
    dispatch_record: Ghost<Seq<HookCall>>,
    /// Every click handler call, in order.
    click_record: Ghost<Seq<ClickCall>>,
}

impl<R: AddonRuntime> AddonHost<R> {
    /// The menu entries of each loaded addon, indexed by addon id.
    pub closed spec fn menus(&self) -> Seq<Seq<String>> {
        Seq::new(self.addons@.len(), |i: int| self.addons@[i].menu_entries@)
    }

    /// The instantiated addons, indexed by addon id.
    pub closed spec fn guests(&self) -> Seq<R::Guest> {
        Seq::new(self.addons@.len(), |i: int| self.addons@[i].guest)
    }

    /// The binary each loaded addon came from, indexed by addon id.
    pub closed spec fn origins(&self) -> Seq<Seq<u8>> {
        Seq::new(self.addons@.len(), |i: int| self.addons@[i].origin@)
    }

    /// The hook calls of the latest dispatch pass, in the order they were made.
    pub closed spec fn last_dispatch(&self) -> Seq<HookCall> {
        self.dispatch_record@
    }

    /// Every click handler call made so far, in order.
    pub closed spec fn clicks(&self) -> Seq<ClickCall> {
        self.click_record@
    }

    pub closed spec fn runtime_of(&self) -> R {
        self.runtime
    }

    /// Every addon id and every menu index fits in a `u32`.
    pub open spec fn wf(&self) -> bool {
        &&& fits_u32_index(self.menus().len() as int)
        &&& forall|i: int|
            0 <= i < self.menus().len() ==> fits_u32_index(#[trigger] self.menus()[i].len() as int)
    }

    /// The menu entries that `get_all_tool_menu_entries` returns.
    pub open spec fn tool_menu_view(&self) -> Seq<(int, int, String)> {
        flatten_menus(self.menus())
    }

    /// A host with no addons, running on `runtime`.
    pub fn new(runtime: R) -> (r: AddonHost<R>)
        ensures
            r.wf(),
            r.menus() == Seq::<Seq<String>>::empty(),
            r.origins() == Seq::<Seq<u8>>::empty(),
            r.clicks() == Seq::<ClickCall>::empty(),
            r.runtime_of() == runtime,
    {
        let r = AddonHost {
            runtime,
            addons: Vec::new(),
            dispatch_record: Ghost(Seq::empty()),
            click_record: Ghost(Seq::empty()),
        };
        assert(r.menus() =~= Seq::<Seq<String>>::empty());
        assert(r.origins() =~= Seq::<Seq<u8>>::empty());
        r
    }

    /// The number of loaded addons.
    pub fn addon_count(&self) -> (r: usize)
        ensures
            r == self.menus().len(),
    {
        self.addons.len()
    }

    /// Appends an addon instantiated from `origin`, given what its `init`
    /// call returned. The addon gets the next id; on any error nothing is
    /// added.
    fn register(
        &mut self,
        guest: R::Guest,
        init: Result<AddonManifest, AddonError>,
        origin: Ghost<Seq<u8>>,
    ) -> (r: Result<(), AddonError>)
        requires
            old(self).wf(),
            old(self).menus().len() < 0x1_0000_0000,
        ensures
            final(self).wf(),
            final(self).runtime_of() == old(self).runtime_of(),
            final(self).clicks() == old(self).clicks(),
            match init {
                Ok(m) => if fits_u32_index(m.tool_menu_entries@.len() as int) {
                    &&& r is Ok
                    &&& final(self).menus() == old(self).menus().push(m.tool_menu_entries@)
                    &&& final(self).guests() == old(self).guests().push(guest)
                    &&& final(self).origins() == old(self).origins().push(origin@)
                } else {
                    &&& r == Err::<(), AddonError>(AddonError::TooManyMenuEntries)
                    &&& final(self).menus() == old(self).menus()
                    &&& final(self).guests() == old(self).guests()
                    &&& final(self).origins() == old(self).origins()
                },
                Err(e) => {
                    &&& r == Err::<(), AddonError>(e)
                    &&& final(self).menus() == old(self).menus()
                    &&& final(self).guests() == old(self).guests()
                    &&& final(self).origins() == old(self).origins()
                },
            },
    {
        match init {
            Ok(manifest) => {
                if manifest.tool_menu_entries.len() as u64 > 0x1_0000_0000 {
                    // on 32-bit targets the length always fits
                    return Err(AddonError::TooManyMenuEntries);
                }
                let ghost old_menus = self.menus();
                let ghost old_guests = self.guests();
                let ghost old_origins = self.origins();
                self.addons.push(
                    AddonContext { guest, menu_entries: manifest.tool_menu_entries, origin },
                );
                assert(self.menus() =~= old_menus.push(manifest.tool_menu_entries@));
                assert(self.guests() =~= old_guests.push(guest));
                assert(self.origins() =~= old_origins.push(origin@));
                Ok(())
            },
            Err(e) => Err(e),
        }
    }

    /// Loads one addon: compile and instantiate through the runtime, then
    /// initialise it. On success the addon is appended with the next id; a
    /// failure at any step adds nothing.
    pub fn load(&mut self, addon_bytes: &[u8]) -> (r: Result<(), AddonError>)
        requires
            old(self).wf(),
            old(self).menus().len() < 0x1_0000_0000,
        ensures
            final(self).wf(),
            final(self).runtime_of() == old(self).runtime_of(),
            final(self).clicks() == old(self).clicks(),
            r is Ok ==> {
                &&& final(self).menus().len() == old(self).menus().len() + 1
                &&& final(self).menus().drop_last() == old(self).menus()
                &&& final(self).guests().drop_last() == old(self).guests()
                &&& final(self).origins() == old(self).origins().push(addon_bytes@)
            },
            r is Err ==> {
                &&& final(self).menus() == old(self).menus()
                &&& final(self).guests() == old(self).guests()
                &&& final(self).origins() == old(self).origins()
            },
    {
        let mut guest = match self.runtime.instantiate(addon_bytes) {
            Ok(g) => g,
            Err(e) => return Err(e),
        };
        let init = guest.init();
        let ghost old_menus = self.menus();
        let ghost old_guests = self.guests();
        let r = self.register(guest, init, Ghost(addon_bytes@));
        proof {
            if r is Ok {
                assert(self.menus().drop_last() =~= old_menus);
                assert(self.guests().drop_last() =~= old_guests);
            }
        }
        r
    }

    /// Runs the before-add-note hook of every addon once, in load order.
    /// Each addon gets a fresh snapshot of the note as the addons before it
    /// left it, and the deck id; an edit it returns is applied if it fits. A
    /// trap, or an edit that does not fit, skips that addon only. Returns the
    /// id and error of each skipped addon, in load order.
    pub fn event_before_add_note(&mut self, note: &mut Note, did: DeckId) -> (r: Vec<
        (u32, AddonError),
    >)
        requires
            old(self).wf(),
        ensures
            final(self).wf(),
            final(self).menus() == old(self).menus(),
            final(self).origins() == old(self).origins(),
            final(self).clicks() == old(self).clicks(),
            final(self).guests().len() == old(self).guests().len(),
            final(self).runtime_of() == old(self).runtime_of(),
            final(self).last_dispatch().len() == old(self).menus().len(),
            is_dispatch(old(note)@, did, final(self).last_dispatch()),
            final(note)@ == run_pipeline(old(note)@, hook_returns(final(self).last_dispatch())),
            skipped_view(r@) == skipped_of(final(self).last_dispatch()),
    {
        let ghost note0 = note@;
        let ghost menus0 = self.menus();
        let ghost origins0 = self.origins();
        self.dispatch_record = Ghost(Seq::empty());
        let mut skipped: Vec<(u32, AddonError)> = Vec::new();
        let n = self.addons.len();
        let mut i: usize = 0;
        assert(skipped_view(skipped@) =~= Seq::<(int, AddonError)>::empty());
        assert(hook_returns(self.dispatch_record@) =~= Seq::<Option<NoteView>>::empty());
        while i < n
            invariant
                n == self.addons@.len(),
                n == menus0.len(),
                fits_u32_index(n as int),
                i <= n,
                self.menus() == menus0,
                self.origins() == origins0,
                self.runtime == old(self).runtime,
                self.click_record == old(self).click_record,
                self.dispatch_record@.len() == i,
                is_dispatch(note0, did, self.dispatch_record@),
                note@ == run_pipeline(note0, hook_returns(self.dispatch_record@)),
                skipped_view(skipped@) == skipped_of(self.dispatch_record@),
            decreases n - i,
        {
            let ghost calls = self.dispatch_record@;
            let snapshot = AddonNote::from_note(note);
            let res = self.addons[i].guest.before_add_note(&snapshot, did);
            let ghost call = HookCall { addon_id: i as int, snapshot: note@, did, result: res };
            let ghost before = note@;
            let applied = note.apply_hook_result(res);
            if let Err(e) = applied {
                let ghost sk = skipped@;
                skipped.push((i as u32, e));
                assert(skipped_view(skipped@) =~= skipped_view(sk).push((i as int, e)));
            }
            self.dispatch_record = Ghost(calls.push(call));
            proof {
                let new_calls = calls.push(call);
                assert(new_calls.drop_last() =~= calls);
                assert(hook_returns(new_calls).drop_last() =~= hook_returns(calls));
                assert(calls.take(i as int) =~= calls);
                assert forall|j: int| 0 <= j < new_calls.len() implies {
                    &&& (#[trigger] new_calls[j]).addon_id == j
                    &&& new_calls[j].did == did
                    &&& new_calls[j].snapshot == run_pipeline(note0, hook_returns(new_calls.take(j)))
                } by {
                    assert(new_calls.take(j) =~= calls.take(j));
                }
                assert(self.menus() =~= menus0);
                assert(self.origins() =~= origins0);
            }
            i = i + 1;
        }
        skipped
    }

    /// Routes a click on a tools-menu entry to the addon that declared it.
    /// An unknown `addon_id` is an error and calls nothing. Otherwise that
    /// addon's click handler is called once with `menu_idx` as given (an
    /// unknown index is the addon's to handle), no other addon runs, and its
    /// result is returned.
    pub fn on_tool_menu_entry_clicked(&mut self, addon_id: u32, menu_idx: u32) -> (r: Result<
        (),
        AddonError,
    >)
        requires
            old(self).wf(),
        ensures
            final(self).wf(),
            final(self).menus() == old(self).menus(),
            final(self).origins() == old(self).origins(),
            final(self).runtime_of() == old(self).runtime_of(),
            final(self).guests().len() == old(self).guests().len(),
            addon_id >= old(self).menus().len() ==> {
                &&& r == Err::<(), AddonError>(AddonError::AddonNotFound { addon_id })
                &&& *final(self) == *old(self)
            },
            addon_id < old(self).menus().len() ==> final(self).clicks() == old(self).clicks().push(
                ClickCall { addon_id: addon_id as int, menu_idx, result: r },
            ),
            forall|j: int|
                0 <= j < old(self).guests().len() && j != addon_id
                    ==> #[trigger] final(self).guests()[j] == old(self).guests()[j],
    {
        if addon_id as usize >= self.addons.len() {
            return Err(AddonError::AddonNotFound { addon_id });
        }
        let ghost menus0 = self.menus();
        let ghost origins0 = self.origins();
        let ghost guests0 = self.guests();
        let r = self.addons[addon_id as usize].guest.on_tool_menu_entry_clicked(menu_idx);
        self.click_record = Ghost(
            self.click_record@.push(ClickCall { addon_id: addon_id as int, menu_idx, result: r }),
        );
        assert(self.menus() =~= menus0);
        assert(self.origins() =~= origins0);
        assert(forall|j: int|
            0 <= j < guests0.len() && j != addon_id ==> #[trigger] self.guests()[j] == guests0[j]);
        r
    }
    /// Every tools-menu entry of every loaded addon, in load order and then in
    /// the order the addon declared them.
    pub fn get_all_tool_menu_entries(&self) -> (r: Vec<AddonMenuEntry>)
        requires
            self.wf(),
        ensures
            menu_entries_view(r@) == self.tool_menu_view(),
    {
        let ghost menus = self.menus();
        let mut entries: Vec<AddonMenuEntry> = Vec::new();
        let mut addon_id: usize = 0;
        while addon_id < self.addons.len()
            invariant
                menus == self.menus(),
                self.wf(),
                addon_id <= menus.len(),
                menu_entries_view(entries@) == flatten_menus(menus.take(addon_id as int)),
            decreases menus.len() - addon_id,
        {
            let labels = &self.addons[addon_id].menu_entries;
            assert(labels@ == menus[addon_id as int]);
            assert(fits_u32_index(menus[addon_id as int].len() as int));
            let ghost start = menu_entries_view(entries@);
            let mut menu_idx: usize = 0;
            while menu_idx < labels.len()
                invariant
                    labels@ == menus[addon_id as int],
                    addon_id < menus.len(),
                    fits_u32_index(menus.len() as int),
                    fits_u32_index(labels@.len() as int),
                    menu_idx <= labels@.len(),
                    menu_entries_view(entries@) == start + addon_menu_entries(
                        addon_id as int,
                        labels@,
                    ).take(menu_idx as int),
                decreases labels@.len() - menu_idx,
            {
                let ghost before = entries@;
                entries.push(
                    AddonMenuEntry {
                        addon_id: addon_id as u32,
                        menu_idx: menu_idx as u32,
                        label: labels[menu_idx].clone(),
                    },
                );
                assert(menu_entries_view(entries@) =~= menu_entries_view(before).push(
                    entries@.last()@,
                ));
                assert(menu_entries_view(entries@) =~= start + addon_menu_entries(
                    addon_id as int,
                    labels@,
                ).take(menu_idx + 1));
                menu_idx = menu_idx + 1;
            }
            assert(addon_menu_entries(addon_id as int, labels@).take(labels@.len() as int)
                =~= addon_menu_entries(addon_id as int, labels@));
            proof {
                lemma_flatten_step(menus, addon_id as int);
            }
            addon_id = addon_id + 1;
        }
        assert(menus.take(menus.len() as int) =~= menus);
        entries
    }

    /// Replaces the loaded addons with the candidates that load. Each
    /// candidate is loaded on its own: one that fails is reported with its
    /// position among the candidates and skipped, and loading goes on. The
    /// addons held afterwards are exactly the candidates not reported, in
    /// candidate order, with ids 0, 1, 2, ...
    pub fn load_batch(&mut self, candidates: &Vec<Vec<u8>>) -> (r: Vec<(usize, AddonError)>)
        requires
            fits_u32_index(candidates@.len() as int),
        ensures
            final(self).wf(),
            final(self).runtime_of() == old(self).runtime_of(),
            final(self).clicks() == old(self).clicks(),
            final(self).origins() == candidates_at(
                candidates@,
                loaded_positions(candidates@.len() as int, failed_positions(r@)),
            ),
            final(self).menus().len() + r@.len() == candidates@.len(),
            forall|k: int| 0 <= k < r@.len() ==> (#[trigger] r@[k]).0 < candidates@.len(),
            forall|k: int, l: int| 0 <= k < l < r@.len() ==> (#[trigger] r@[k]).0 < (#[trigger] r@[l]).0,
    {
        self.unload_all();
        let mut failed: Vec<(usize, AddonError)> = Vec::new();
        let mut i: usize = 0;
        assert(failed_positions(failed@) =~= Seq::<int>::empty());
        assert(candidates_at(candidates@, loaded_positions(0, Seq::<int>::empty())) =~= Seq::<
            Seq<u8>,
        >::empty());
        while i < candidates.len()
            invariant
                self.wf(),
                self.runtime_of() == old(self).runtime_of(),
                self.clicks() == old(self).clicks(),
                fits_u32_index(candidates@.len() as int),
                i <= candidates@.len(),
                self.menus().len() + failed@.len() == i,
                self.origins() == candidates_at(
                    candidates@,
                    loaded_positions(i as int, failed_positions(failed@)),
                ),
                forall|k: int| 0 <= k < failed@.len() ==> (#[trigger] failed@[k]).0 < i,
                forall|k: int, l: int|
                    0 <= k < l < failed@.len() ==> (#[trigger] failed@[k]).0 < (#[trigger] failed@[l]).0,
            decreases candidates@.len() - i,
        {
            let ghost fp = failed_positions(failed@);
            let ghost kept = loaded_positions(i as int, fp);
            assert(!fp.contains(i as int)) by {
                if fp.contains(i as int) {
                    let k = choose|k: int| 0 <= k < fp.len() && fp[k] == i as int;
                    assert(failed@[k].0 < i);
                }
            }
            match self.load(candidates[i].as_slice()) {
                Ok(()) => {
                    assert(loaded_positions(i + 1, fp) == kept.push(i as int));
                    assert(candidates_at(candidates@, kept.push(i as int)) =~= candidates_at(
                        candidates@,
                        kept,
                    ).push(candidates@[i as int]@));
                },
                Err(e) => {
                    failed.push((i, e));
                    proof {
                        assert(failed_positions(failed@) =~= fp.push(i as int));
                        lemma_loaded_positions_ignore_later(i as int, fp, i as int);
                        assert(fp.push(i as int).contains(i as int)) by {
                            assert(fp.push(i as int)[fp.len() as int] == i as int);
                        }
                    }
                },
            }
            i = i + 1;
        }
        failed
    }

    /// Drops every addon; all earlier ids are invalid afterwards.
    pub fn unload_all(&mut self)
        ensures
            final(self).wf(),
            final(self).menus() == Seq::<Seq<String>>::empty(),
            final(self).origins() == Seq::<Seq<u8>>::empty(),
            final(self).tool_menu_view() == Seq::<(int, int, String)>::empty(),
            final(self).runtime_of() == old(self).runtime_of(),
            final(self).clicks() == old(self).clicks(),
    {
        self.addons.clear();
        assert(self.menus() =~= Seq::<Seq<String>>::empty());
        assert(self.origins() =~= Seq::<Seq<u8>>::empty());
    }
}

} // verus!
