//! The operations the collection service exposes: opening and closing the
//! collection, and the addon host's load, menu and click operations.

use vstd::prelude::*;

use crate::host::{
    candidates_at, failed_positions, fits_u32_index, loaded_positions, menu_entries_view, AddonHost,
    AddonMenuEntry, AddonRuntime, ClickCall,
};
use crate::note::AddonError;

verus! {

/// Misuse of the collection state.
#[derive(Clone, Copy, Debug, PartialEq, Eq, Structural)]
pub enum BackendError {
    CollectionNotOpen,
    CollectionAlreadyOpen,
}

/// An open or closed collection of type `C`, with the addon host that serves it.
pub struct Backend<C, R: AddonRuntime> {
    col: Option<C>,
    addon_host: AddonHost<R>,
}

impl<C, R: AddonRuntime> Backend<C, R> {
    pub closed spec fn collection(&self) -> Option<C> {
        self.col
    }

    pub closed spec fn host(&self) -> AddonHost<R> {
        self.addon_host
    }

    pub open spec fn wf(&self) -> bool {
        self.host().wf()
    }

    /// A backend with no open collection and no addons.
    pub fn new(runtime: R) -> (r: Backend<C, R>)
        ensures
            r.wf(),
            r.collection() is None,
            r.host().menus() == Seq::<Seq<String>>::empty(),
    {
        Backend { col: None, addon_host: AddonHost::new(runtime) }
    }

    /// The open collection, or `CollectionNotOpen`.
    pub fn lock_open_collection(&self) -> (r: Result<&C, BackendError>)
        ensures
            match self.collection() {
                Some(c) => r == Ok::<&C, BackendError>(&c),
                None => r == Err::<&C, BackendError>(BackendError::CollectionNotOpen),
            },
    {
        match &self.col {
            Some(c) => Ok(c),
            None => Err(BackendError::CollectionNotOpen),
        }
    }

    /// Succeeds only while no collection is open.
    pub fn lock_closed_collection(&self) -> (r: Result<(), BackendError>)
        ensures
            self.collection() is None <==> r is Ok,
            r is Err ==> r == Err::<(), BackendError>(BackendError::CollectionAlreadyOpen),
    {
        match &self.col {
            Some(_) => Err(BackendError::CollectionAlreadyOpen),
            None => Ok(()),
        }
    }

    /// Installs `col` as the open collection, unless one is open already.
    pub fn open_collection(&mut self, col: C) -> (r: Result<(), BackendError>)
        ensures
            final(self).host() == old(self).host(),
            old(self).collection() is None ==> r is Ok && final(self).collection() == Some(col),
            old(self).collection() is Some ==> {
                &&& r == Err::<(), BackendError>(BackendError::CollectionAlreadyOpen)
                &&& final(self).collection() == old(self).collection()
            },
    {
        match self.lock_closed_collection() {
            Ok(()) => {
                self.col = Some(col);
                Ok(())
            },
            Err(e) => Err(e),
        }
    }

    /// Takes the open collection out so that it can be closed.
    pub fn close_collection(&mut self) -> (r: Result<C, BackendError>)
        ensures
            final(self).host() == old(self).host(),
            final(self).collection() is None,
            match old(self).collection() {
                Some(c) => r == Ok::<C, BackendError>(c),
                None => r == Err::<C, BackendError>(BackendError::CollectionNotOpen),
            },
    {
        match self.col.take() {
            Some(c) => Ok(c),
            None => Err(BackendError::CollectionNotOpen),
        }
    }

    /// Replaces the loaded addons with the candidate binaries that load; a
    /// candidate that fails is reported and skipped. The addons held
    /// afterwards are the candidates not reported, in candidate order.
    pub fn init_addons(&mut self, candidates: &Vec<Vec<u8>>) -> (r: Vec<(usize, AddonError)>)
        requires
            fits_u32_index(candidates@.len() as int),
        ensures
            final(self).wf(),
            final(self).collection() == old(self).collection(),
            final(self).host().origins() == candidates_at(
                candidates@,
                loaded_positions(candidates@.len() as int, failed_positions(r@)),
            ),
            final(self).host().menus().len() + r@.len() == candidates@.len(),
            forall|k: int| 0 <= k < r@.len() ==> (#[trigger] r@[k]).0 < candidates@.len(),
            forall|k: int, l: int| 0 <= k < l < r@.len() ==> (#[trigger] r@[k]).0 < (#[trigger] r@[l]).0,
    {
        self.addon_host.load_batch(candidates)
    }

    /// The tools-menu entries of all loaded addons.
    pub fn get_addon_tool_menus_entries(&self) -> (r: Vec<AddonMenuEntry>)
        requires
            self.wf(),
        ensures
            menu_entries_view(r@) == self.host().tool_menu_view(),
    {
        self.addon_host.get_all_tool_menu_entries()
    }

    /// Routes a menu click to the addon with id `addon_id`: that addon's
    /// click handler is called once with `menu_idx` and its result returned;
    /// an unknown id is an error and calls nothing.
    pub fn on_click_addon_menu(&mut self, addon_id: u32, menu_idx: u32) -> (r: Result<
        (),
        AddonError,
    >)
        requires
            old(self).wf(),
        ensures
            final(self).wf(),
            final(self).collection() == old(self).collection(),
            final(self).host().menus() == old(self).host().menus(),
            addon_id >= old(self).host().menus().len() ==> {
                &&& r == Err::<(), AddonError>(AddonError::AddonNotFound { addon_id })
                &&& final(self).host() == old(self).host()
            },
            addon_id < old(self).host().menus().len() ==> final(self).host().clicks()
                == old(self).host().clicks().push(
                ClickCall { addon_id: addon_id as int, menu_idx, result: r },
            ),
            final(self).host().guests().len() == old(self).host().guests().len(),
            forall|j: int|
                0 <= j < old(self).host().guests().len() && j != addon_id
                    ==> #[trigger] final(self).host().guests()[j] == old(self).host().guests()[j],
    {
        let r = self.addon_host.on_tool_menu_entry_clicked(addon_id, menu_idx);
        r
    }
}

} // verus!
