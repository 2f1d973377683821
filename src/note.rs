//! Host notes, the snapshot handed across the addon boundary, and the rules
//! for applying an edit that an addon returns.

use vstd::prelude::*;

verus! {

/// Identifier of a deck.
#[derive(Clone, Copy, Debug, PartialEq, Eq, Structural)]
pub struct DeckId {
    pub id: i64,
}

/// A note as the host stores it.
#[derive(Clone, Debug)]
pub struct Note {
    pub id: i64,
    pub guid: String,
    pub notetype_id: i64,
    pub mtime: i64,
    pub usn: i32,
    pub tags: Vec<String>,
    pub fields: Vec<String>,
    pub sort_field: Option<String>,
    pub checksum: Option<u32>,
}

/// The copy of a note that crosses into an addon, and the form in which an
/// addon hands an edited note back.
#[derive(Clone, Debug)]
pub struct AddonNote {
    pub id: i64,
    pub guid: String,
    pub note_type_id: i64,
    pub mtime: i64,
    pub usn: i32,
    pub tags: Vec<String>,
    pub fields: Vec<String>,
    pub sort_field: Option<String>,
    pub checksum: Option<u32>,
}

/// The content of a note, shared by `Note` and `AddonNote`.
pub struct NoteView {
    pub id: i64,
    pub guid: String,
    pub notetype_id: i64,
    pub mtime: i64,
    pub usn: i32,
    pub tags: Seq<String>,
    pub fields: Seq<String>,
    pub sort_field: Option<String>,
    pub checksum: Option<u32>,
}

impl View for Note {
    type V = NoteView;

    open spec fn view(&self) -> NoteView {
        NoteView {
            id: self.id,
            guid: self.guid,
            notetype_id: self.notetype_id,
            mtime: self.mtime,
            usn: self.usn,
            tags: self.tags@,
            fields: self.fields@,
            sort_field: self.sort_field,
            checksum: self.checksum,
        }
    }
}

impl View for AddonNote {
    type V = NoteView;

    open spec fn view(&self) -> NoteView {
        NoteView {
            id: self.id,
            guid: self.guid,
            notetype_id: self.note_type_id,
            mtime: self.mtime,
            usn: self.usn,
            tags: self.tags@,
            fields: self.fields@,
            sort_field: self.sort_field,
            checksum: self.checksum,
        }
    }
}

/// Host fields after positional overwrite: index `i` of `edit` replaces host
/// field `i`; host fields past the end of `edit` are kept.
pub open spec fn merge_fields(host: Seq<String>, edit: Seq<String>) -> Seq<String> {
    Seq::new(host.len(), |i: int| if i < edit.len() { edit[i] } else { host[i] })
}

/// An edit may be applied only when it does not return more fields than the
/// host note has.
pub open spec fn edit_fits(host: NoteView, edit: NoteView) -> bool {
    edit.fields.len() <= host.fields.len()
}

/// The host note after a fitting edit: every scalar, the tags, the sort field
/// and the checksum come from the edit; the fields are merged positionally.
pub open spec fn edited(host: NoteView, edit: NoteView) -> NoteView {
    NoteView {
        id: edit.id,
        guid: edit.guid,
        notetype_id: edit.notetype_id,
        mtime: edit.mtime,
        usn: edit.usn,
        tags: edit.tags,
        fields: merge_fields(host.fields, edit.fields),
        sort_field: edit.sort_field,
        checksum: edit.checksum,
    }
}

/// The note after one addon's hook call: `Some(edit)` if the addon returned
/// an edit, `None` if it returned nothing or trapped. An edit that does not
/// fit is rejected and leaves the note as it was.
pub open spec fn apply_returned(host: NoteView, returned: Option<NoteView>) -> NoteView {
    match returned {
        Some(e) => if edit_fits(host, e) { edited(host, e) } else { host },
        None => host,
    }
}

/// The note after a pass over addons whose hook calls gave `returned`, in
/// load order: each addon sees what the ones before it left.
pub open spec fn run_pipeline(host: NoteView, returned: Seq<Option<NoteView>>) -> NoteView
    decreases returned.len(),
{
    if returned.len() == 0 {
        host
    } else {
        apply_returned(run_pipeline(host, returned.drop_last()), returned.last())
    }
}

/// A pass over no addons leaves the note as it was.
pub proof fn lemma_pipeline_without_addons(host: NoteView)
    ensures
        forall|returned: Seq<Option<NoteView>>|
            returned.len() == 0 ==> #[trigger] run_pipeline(host, returned) == host,
{
}

/// Addons run as a sequential pipeline in load order: a pass over the addons
/// of `first` followed by those of `second` gives what the addons of `second`
/// make of the note that the addons of `first` left.
pub proof fn lemma_pipeline_composes(
    host: NoteView,
    first: Seq<Option<NoteView>>,
    second: Seq<Option<NoteView>>,
)
    ensures
        run_pipeline(host, first + second) == run_pipeline(run_pipeline(host, first), second),
    decreases second.len(),
{
    if second.len() == 0 {
        assert(first + second =~= first);
    } else {
        assert((first + second).drop_last() =~= first + second.drop_last());
        lemma_pipeline_composes(host, first, second.drop_last());
    }
}

/// With two addons that each return an edit, the second edit is applied to
/// the note as the first edit left it.
pub proof fn lemma_two_edits_compose(host: NoteView, a: NoteView, b: NoteView)
    ensures
        run_pipeline(host, seq![Some(a), Some(b)]) == apply_returned(
            apply_returned(host, Some(a)),
            Some(b),
        ),
{
    let rs = seq![Some(a), Some(b)];
    assert(rs.drop_last() =~= seq![Some(a)]);
    assert(seq![Some(a)].drop_last() =~= Seq::<Option<NoteView>>::empty());
    assert(run_pipeline(host, Seq::<Option<NoteView>>::empty()) == host);
    assert(seq![Some(a)].last() == Some(a));
    assert(rs.last() == Some(b));
    assert(run_pipeline(host, seq![Some(a)]) == apply_returned(host, Some(a)));
}

/// An addon that traps (contributes nothing) leaves the pass exactly as if it
/// were not loaded: the addons after it still run, on the same note.
pub proof fn lemma_trapped_addon_is_skipped(host: NoteView, returned: Seq<Option<NoteView>>, k: int)
    requires
        0 <= k < returned.len(),
    ensures
        run_pipeline(host, returned.update(k, None)) == run_pipeline(host, returned.remove(k)),
    decreases returned.len(),
{
    if k == returned.len() - 1 {
        assert(returned.update(k, None).drop_last() =~= returned.remove(k));
    } else {
        assert(returned.update(k, None).drop_last() =~= returned.drop_last().update(k, None));
        assert(returned.remove(k).drop_last() =~= returned.drop_last().remove(k));
        lemma_trapped_addon_is_skipped(host, returned.drop_last(), k);
    }
}

/// Errors raised by the addon host and by the runtime adapter.
#[derive(Clone, Debug, PartialEq, Eq)]
pub enum AddonError {
    /// The addon binary is malformed or does not match the addon interface.
    Compile(String),
    /// The addon could not be instantiated against the capability surface.
    Instantiate(String),
    /// The addon trapped during a call.
    GuestTrap(String),
    /// An edit returned more fields than the host note has.
    TooManyFields { host_fields: usize, returned_fields: usize },
    /// A manifest declared more tool-menu entries than a `u32` index can address.
    TooManyMenuEntries,
    /// No addon is loaded under this id.
    AddonNotFound { addon_id: u32 },
}

fn clone_strings(v: &Vec<String>) -> (r: Vec<String>)
    ensures
        r@ == v@,
{
    let mut r: Vec<String> = Vec::new();
    let mut i: usize = 0;
    while i < v.len()
        invariant
            i <= v.len(),
            r@ == v@.subrange(0, i as int),
        decreases v.len() - i,
    {
        r.push(v[i].clone());
        i = i + 1;
    }
    assert(r@ =~= v@);
    r
}

impl AddonNote {
    /// Copies a host note into the snapshot handed to an addon. The snapshot
    /// owns all its data and has the same content as the note.
    pub fn from_note(note: &Note) -> (r: AddonNote)
        ensures
            r@ == note@,
    {
        AddonNote {
            id: note.id,
            guid: note.guid.clone(),
            note_type_id: note.notetype_id,
            mtime: note.mtime,
            usn: note.usn,
            tags: clone_strings(&note.tags),
            fields: clone_strings(&note.fields),
            sort_field: match &note.sort_field {
                Some(s) => Some(s.clone()),
                None => None,
            },
            checksum: note.checksum,
        }
    }
}

impl Note {
    /// Applies an edit returned by an addon. An edit with more fields than
    /// this note is rejected as a whole and the note is left unchanged.
    pub fn apply_edit(&mut self, edit: AddonNote) -> (r: Result<(), AddonError>)
        ensures
            r is Ok <==> edit_fits(old(self)@, edit@),
            r is Ok ==> final(self)@ == edited(old(self)@, edit@),
            r is Ok ==> forall|i: int|
                edit.fields@.len() <= i < old(self).fields@.len() ==> #[trigger] final(self).fields@[i]
                    == old(self).fields@[i],
            r is Err ==> *final(self) == *old(self),
            r is Err ==> r == Err::<(), AddonError>(
                AddonError::TooManyFields {
                    host_fields: old(self).fields@.len() as usize,
                    returned_fields: edit.fields@.len() as usize,
                },
            ),
    {
        if edit.fields.len() > self.fields.len() {
            return Err(
                AddonError::TooManyFields {
                    host_fields: self.fields.len(),
                    returned_fields: edit.fields.len(),
                },
            );
        }
        let ghost host = self.fields@;
        let mut i: usize = 0;
        while i < edit.fields.len()
            invariant
                edit.fields@.len() <= host.len(),
                i <= edit.fields@.len(),
                self.fields@.len() == host.len(),
                forall|j: int| 0 <= j < i ==> #[trigger] self.fields@[j] == edit.fields@[j],
                forall|j: int| i <= j < host.len() ==> #[trigger] self.fields@[j] == host[j],
            decreases edit.fields@.len() - i,
        {
            self.fields.set(i, edit.fields[i].clone());
            i = i + 1;
        }
        assert(self.fields@ =~= merge_fields(host, edit.fields@));
        self.id = edit.id;
        self.guid = edit.guid;
        self.notetype_id = edit.note_type_id;
        self.mtime = edit.mtime;
        self.usn = edit.usn;
        self.tags = edit.tags;
        self.sort_field = edit.sort_field;
        self.checksum = edit.checksum;
        Ok(())
    }
}

/// What a hook call contributes to the pipeline: the edit, if the addon
/// returned one.
pub open spec fn returned_edit(res: Result<Option<AddonNote>, AddonError>) -> Option<NoteView> {
    match res {
        Ok(Some(e)) => Some(e@),
        _ => None,
    }
}

/// The error, if any, with which a hook result is skipped on `host`: the
/// addon's own error, or `TooManyFields` for an edit that does not fit.
pub open spec fn hook_result_error(host: NoteView, res: Result<Option<AddonNote>, AddonError>) -> Option<AddonError> {
    match res {
        Err(e) => Some(e),
        Ok(Some(e)) => if edit_fits(host, e@) {
            None
        } else {
            Some(
                AddonError::TooManyFields {
                    host_fields: host.fields.len() as usize,
                    returned_fields: e.fields@.len() as usize,
                },
            )
        },
        Ok(None) => None,
    }
}

impl Note {
    /// Folds the result of one addon's hook call into the note: a returned
    /// edit is applied if it fits; nothing returned, a trap, or an edit that
    /// does not fit leaves the note unchanged. A trap or an edit that does
    /// not fit is reported as `Err`.
    pub fn apply_hook_result(&mut self, res: Result<Option<AddonNote>, AddonError>) -> (r: Result<
        (),
        AddonError,
    >)
        ensures
            final(self)@ == apply_returned(old(self)@, returned_edit(res)),
            match hook_result_error(old(self)@, res) {
                Some(e) => r == Err::<(), AddonError>(e),
                None => r is Ok,
            },
    {
        match res {
            Ok(Some(edit)) => self.apply_edit(edit),
            Ok(None) => Ok(()),
            Err(e) => Err(e),
        }
    }
}

} // verus!
