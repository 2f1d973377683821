use std::cell::RefCell;
use std::rc::Rc;

use addon_host::backend::{Backend, BackendError};
use addon_host::host::{AddonGuest, AddonHost, AddonHostState, AddonManifest, AddonRuntime};
use addon_host::note::{AddonError, AddonNote, DeckId, Note};

/// Calls seen by the test guests: (addon name, what was called).
type CallLog = Rc<RefCell<Vec<(String, String)>>>;

#[derive(Clone, Copy, PartialEq)]
enum Behaviour {
    Append,
    Trap,
    NoEdit,
    ExtraField,
    DropLastField,
    FailInit,
}

struct TestGuest {
    name: String,
    behaviour: Behaviour,
    suffix: String,
    menu: Vec<String>,
    log: CallLog,
}

impl AddonGuest for TestGuest {
    fn init(&mut self) -> Result<AddonManifest, AddonError> {
        self.log.borrow_mut().push((self.name.clone(), "init".to_string()));
        if self.behaviour == Behaviour::FailInit {
            return Err(AddonError::GuestTrap("init trapped".to_string()));
        }
        Ok(AddonManifest { name: self.name.clone(), tool_menu_entries: self.menu.clone() })
    }

    fn on_tool_menu_entry_clicked(&mut self, menu_idx: u32) -> Result<(), AddonError> {
        self.log.borrow_mut().push((self.name.clone(), format!("click {}", menu_idx)));
        Ok(())
    }

    fn before_add_note(
        &mut self,
        note: &AddonNote,
        did: DeckId,
    ) -> Result<Option<AddonNote>, AddonError> {
        self.log
            .borrow_mut()
            .push((self.name.clone(), format!("before_add_note {} {:?}", did.id, note.fields)));
        let mut edited = note.clone();
        match self.behaviour {
            Behaviour::Append => {
                for f in edited.fields.iter_mut() {
                    f.push_str(&self.suffix);
                }
                Ok(Some(edited))
            }
            Behaviour::Trap => Err(AddonError::GuestTrap("unreachable executed".to_string())),
            Behaviour::NoEdit => Ok(None),
            Behaviour::ExtraField => {
                edited.fields.push("extra".to_string());
                edited.guid = "changed".to_string();
                Ok(Some(edited))
            }
            Behaviour::DropLastField => {
                edited.fields.pop();
                for f in edited.fields.iter_mut() {
                    f.push_str(&self.suffix);
                }
                edited.tags = vec!["edited".to_string()];
                edited.mtime = 99;
                Ok(Some(edited))
            }
            Behaviour::FailInit => Ok(None),
        }
    }
}

/// Addon "binaries" for the test runtime: `name:behaviour:suffix:menu1,menu2`.
/// Anything that does not parse fails to compile.
struct TestRuntime {
    log: CallLog,
}

impl AddonRuntime for TestRuntime {
    type Guest = TestGuest;

    fn instantiate(&self, addon_bytes: &[u8]) -> Result<TestGuest, AddonError> {
        let text = std::str::from_utf8(addon_bytes)
            .map_err(|_| AddonError::Compile("not utf-8".to_string()))?;
        let parts: Vec<&str> = text.split(':').collect();
        if parts.len() != 4 {
            return Err(AddonError::Compile("malformed".to_string()));
        }
        let behaviour = match parts[1] {
            "append" => Behaviour::Append,
            "trap" => Behaviour::Trap,
            "none" => Behaviour::NoEdit,
            "extra" => Behaviour::ExtraField,
            "drop" => Behaviour::DropLastField,
            "failinit" => Behaviour::FailInit,
            _ => return Err(AddonError::Instantiate("unresolved import".to_string())),
        };
        let menu = if parts[3].is_empty() {
            Vec::new()
        } else {
            parts[3].split(',').map(|s| s.to_string()).collect()
        };
        Ok(TestGuest {
            name: parts[0].to_string(),
            behaviour,
            suffix: parts[2].to_string(),
            menu,
            log: self.log.clone(),
        })
    }
}

fn new_host() -> (AddonHost<TestRuntime>, CallLog) {
    let log: CallLog = Rc::new(RefCell::new(Vec::new()));
    (AddonHost::new(TestRuntime { log: log.clone() }), log)
}

fn note_with_fields(fields: &[&str]) -> Note {
    Note {
        id: 1,
        guid: "guid".to_string(),
        notetype_id: 2,
        mtime: 3,
        usn: -1,
        tags: vec!["t".to_string()],
        fields: fields.iter().map(|s| s.to_string()).collect(),
        sort_field: Some("x".to_string()),
        checksum: Some(7),
    }
}

fn fields_of(note: &Note) -> Vec<&str> {
    note.fields.iter().map(|s| s.as_str()).collect()
}

#[test]
fn unload_all_then_menu_entries_empty() {
    let (mut host, _) = new_host();
    host.load(b"a:none::m1,m2").unwrap();
    host.load(b"b:none::m3").unwrap();
    host.load(b"c:none::m4").unwrap();
    assert_eq!(host.get_all_tool_menu_entries().len(), 4);
    host.unload_all();
    assert!(host.get_all_tool_menu_entries().is_empty());
    assert_eq!(host.addon_count(), 0);
    host.unload_all();
    assert_eq!(host.addon_count(), 0);
}

#[test]
fn load_order_gives_sequential_ids() {
    let (mut host, _) = new_host();
    host.load(b"A:none::open,close").unwrap();
    host.load(b"B:none::hello").unwrap();
    let entries = host.get_all_tool_menu_entries();
    let seen: Vec<(u32, u32, &str)> =
        entries.iter().map(|e| (e.addon_id, e.menu_idx, e.label.as_str())).collect();
    assert_eq!(seen, vec![(0, 0, "open"), (0, 1, "close"), (1, 0, "hello")]);
}

#[test]
fn dispatch_with_no_addons_is_identity() {
    let (mut host, _) = new_host();
    let mut note = note_with_fields(&["x", "y"]);
    let skipped = host.event_before_add_note(&mut note, DeckId { id: 1 });
    assert!(skipped.is_empty());
    assert_eq!(fields_of(&note), vec!["x", "y"]);
    assert_eq!(note.guid, "guid");
    assert_eq!(note.tags, vec!["t".to_string()]);
    assert_eq!(note.sort_field, Some("x".to_string()));
    assert_eq!(note.checksum, Some(7));
}

#[test]
fn single_appending_addon_edits_every_field() {
    let (mut host, _) = new_host();
    host.load(b"A:append: [tag]:").unwrap();
    let mut note = note_with_fields(&["x", "y"]);
    host.event_before_add_note(&mut note, DeckId { id: 1 });
    assert_eq!(fields_of(&note), vec!["x [tag]", "y [tag]"]);
}

#[test]
fn two_appending_addons_compose_in_load_order() {
    let (mut host, log) = new_host();
    host.load(b"A:append: [tag]:").unwrap();
    host.load(b"B:append: [tag]:").unwrap();
    let mut note = note_with_fields(&["x", "y"]);
    host.event_before_add_note(&mut note, DeckId { id: 1 });
    assert_eq!(fields_of(&note), vec!["x [tag] [tag]", "y [tag] [tag]"]);
    let calls = log.borrow();
    assert!(calls.contains(&(
        "B".to_string(),
        "before_add_note 1 [\"x [tag]\", \"y [tag]\"]".to_string()
    )));
}

#[test]
fn later_addon_sees_earlier_edit() {
    let (mut host, _) = new_host();
    host.load(b"A:append: [A]:").unwrap();
    host.load(b"B:append: [B]:").unwrap();
    let mut note = note_with_fields(&["x"]);
    host.event_before_add_note(&mut note, DeckId { id: 1 });
    assert_eq!(fields_of(&note), vec!["x [A] [B]"]);
}

#[test]
fn click_routes_to_addon_once() {
    let (mut host, log) = new_host();
    host.load(b"A:none::only").unwrap();
    log.borrow_mut().clear();
    assert_eq!(host.on_tool_menu_entry_clicked(0, 0), Ok(()));
    assert_eq!(*log.borrow(), vec![("A".to_string(), "click 0".to_string())]);
}

#[test]
fn click_with_unknown_addon_is_error_and_calls_nothing() {
    let (mut host, log) = new_host();
    host.load(b"A:none::only").unwrap();
    log.borrow_mut().clear();
    assert_eq!(
        host.on_tool_menu_entry_clicked(1, 0),
        Err(AddonError::AddonNotFound { addon_id: 1 })
    );
    assert!(log.borrow().is_empty());
}

#[test]
fn click_with_unknown_menu_idx_is_forwarded() {
    let (mut host, log) = new_host();
    host.load(b"A:none::only").unwrap();
    host.load(b"B:none::other").unwrap();
    log.borrow_mut().clear();
    assert_eq!(host.on_tool_menu_entry_clicked(1, 5), Ok(()));
    assert_eq!(*log.borrow(), vec![("B".to_string(), "click 5".to_string())]);
}

#[test]
fn trap_does_not_stop_later_addons() {
    let (mut host, _) = new_host();
    host.load(b"A:append: [A]:").unwrap();
    host.load(b"T:trap::").unwrap();
    host.load(b"B:append: [B]:").unwrap();
    let mut note = note_with_fields(&["x", "y"]);
    let skipped = host.event_before_add_note(&mut note, DeckId { id: 1 });
    assert_eq!(fields_of(&note), vec!["x [A] [B]", "y [A] [B]"]);
    assert_eq!(skipped, vec![(1, AddonError::GuestTrap("unreachable executed".to_string()))]);
}

#[test]
fn addon_returning_nothing_leaves_note() {
    let (mut host, _) = new_host();
    host.load(b"N:none::").unwrap();
    let mut note = note_with_fields(&["x"]);
    let skipped = host.event_before_add_note(&mut note, DeckId { id: 1 });
    assert!(skipped.is_empty());
    assert_eq!(fields_of(&note), vec!["x"]);
}

#[test]
fn short_edit_keeps_trailing_fields() {
    let mut note = note_with_fields(&["a", "b", "c"]);
    let mut edit = AddonNote::from_note(&note);
    edit.fields = vec!["A".to_string()];
    edit.guid = "g2".to_string();
    edit.id = 10;
    edit.note_type_id = 20;
    edit.mtime = 30;
    edit.usn = 40;
    edit.tags = vec![];
    edit.sort_field = None;
    edit.checksum = None;
    assert_eq!(note.apply_edit(edit), Ok(()));
    assert_eq!(fields_of(&note), vec!["A", "b", "c"]);
    assert_eq!(note.guid, "g2");
    assert_eq!((note.id, note.notetype_id, note.mtime, note.usn), (10, 20, 30, 40));
    assert!(note.tags.is_empty());
    assert_eq!(note.sort_field, None);
    assert_eq!(note.checksum, None);
}

#[test]
fn long_edit_is_rejected() {
    let mut note = note_with_fields(&["a"]);
    let mut edit = AddonNote::from_note(&note);
    edit.fields = vec!["A".to_string(), "B".to_string()];
    edit.guid = "other".to_string();
    assert_eq!(
        note.apply_edit(edit),
        Err(AddonError::TooManyFields { host_fields: 1, returned_fields: 2 })
    );
    assert_eq!(fields_of(&note), vec!["a"]);
    assert_eq!(note.guid, "guid");
}

#[test]
fn dispatch_rejects_edit_with_extra_field() {
    let (mut host, _) = new_host();
    host.load(b"E:extra::").unwrap();
    host.load(b"B:append: [B]:").unwrap();
    let mut note = note_with_fields(&["x"]);
    let skipped = host.event_before_add_note(&mut note, DeckId { id: 1 });
    assert_eq!(fields_of(&note), vec!["x [B]"]);
    assert_eq!(note.guid, "guid");
    assert_eq!(
        skipped,
        vec![(0, AddonError::TooManyFields { host_fields: 1, returned_fields: 2 })]
    );
}

#[test]
fn dispatch_applies_short_edit() {
    let (mut host, _) = new_host();
    host.load(b"D:drop:!:").unwrap();
    let mut note = note_with_fields(&["x", "y"]);
    host.event_before_add_note(&mut note, DeckId { id: 1 });
    assert_eq!(fields_of(&note), vec!["x!", "y"]);
    assert_eq!(note.tags, vec!["edited".to_string()]);
    assert_eq!(note.mtime, 99);
}

#[test]
fn snapshot_copies_note() {
    let note = note_with_fields(&["x", "y"]);
    let snap = AddonNote::from_note(&note);
    assert_eq!(snap.id, 1);
    assert_eq!(snap.guid, "guid");
    assert_eq!(snap.note_type_id, 2);
    assert_eq!(snap.mtime, 3);
    assert_eq!(snap.usn, -1);
    assert_eq!(snap.tags, vec!["t".to_string()]);
    assert_eq!(snap.fields, vec!["x".to_string(), "y".to_string()]);
    assert_eq!(snap.sort_field, Some("x".to_string()));
    assert_eq!(snap.checksum, Some(7));
}

#[test]
fn failed_load_adds_nothing() {
    let (mut host, _) = new_host();
    host.load(b"A:none::m").unwrap();
    assert_eq!(host.load(b"garbage"), Err(AddonError::Compile("malformed".to_string())));
    assert_eq!(
        host.load(b"X:bogus::m"),
        Err(AddonError::Instantiate("unresolved import".to_string()))
    );
    assert_eq!(
        host.load(b"F:failinit::m"),
        Err(AddonError::GuestTrap("init trapped".to_string()))
    );
    assert_eq!(host.addon_count(), 1);
    assert_eq!(host.get_all_tool_menu_entries().len(), 1);
}

#[test]
fn load_batch_skips_failures_and_replaces_addons() {
    let (mut host, _) = new_host();
    host.load(b"old:none::stale").unwrap();
    let candidates: Vec<Vec<u8>> = vec![
        b"A:none::a".to_vec(),
        b"broken".to_vec(),
        b"B:none::b".to_vec(),
        b"F:failinit::f".to_vec(),
    ];
    let failed = host.load_batch(&candidates);
    let positions: Vec<usize> = failed.iter().map(|(i, _)| *i).collect();
    assert_eq!(positions, vec![1, 3]);
    let entries = host.get_all_tool_menu_entries();
    let seen: Vec<(u32, u32, &str)> =
        entries.iter().map(|e| (e.addon_id, e.menu_idx, e.label.as_str())).collect();
    assert_eq!(seen, vec![(0, 0, "a"), (1, 0, "b")]);
}

#[test]
fn host_state_can_be_created() {
    let _state = AddonHostState::new();
}

#[test]
fn backend_collection_state() {
    let log: CallLog = Rc::new(RefCell::new(Vec::new()));
    let mut backend: Backend<u32, TestRuntime> = Backend::new(TestRuntime { log });
    assert_eq!(backend.lock_open_collection().err(), Some(BackendError::CollectionNotOpen));
    assert_eq!(backend.lock_closed_collection(), Ok(()));
    assert_eq!(backend.close_collection(), Err(BackendError::CollectionNotOpen));
    assert_eq!(backend.open_collection(5), Ok(()));
    assert_eq!(backend.open_collection(6), Err(BackendError::CollectionAlreadyOpen));
    assert_eq!(backend.lock_open_collection().ok(), Some(&5));
    assert_eq!(backend.lock_closed_collection(), Err(BackendError::CollectionAlreadyOpen));
    assert_eq!(backend.close_collection(), Ok(5));
    assert_eq!(backend.lock_closed_collection(), Ok(()));
}

#[test]
fn backend_addon_operations() {
    let log: CallLog = Rc::new(RefCell::new(Vec::new()));
    let mut backend: Backend<u32, TestRuntime> = Backend::new(TestRuntime { log: log.clone() });
    let candidates: Vec<Vec<u8>> = vec![b"A:none::x,y".to_vec(), b"bad".to_vec()];
    let failed = backend.init_addons(&candidates);
    assert_eq!(failed.len(), 1);
    assert_eq!(failed[0].0, 1);
    let labels: Vec<String> =
        backend.get_addon_tool_menus_entries().into_iter().map(|e| e.label).collect();
    assert_eq!(labels, vec!["x".to_string(), "y".to_string()]);
    log.borrow_mut().clear();
    assert_eq!(backend.on_click_addon_menu(0, 1), Ok(()));
    assert_eq!(
        backend.on_click_addon_menu(3, 0),
        Err(AddonError::AddonNotFound { addon_id: 3 })
    );
    assert_eq!(*log.borrow(), vec![("A".to_string(), "click 1".to_string())]);
}

#[test]
fn hook_result_is_folded_into_note() {
    let mut note = note_with_fields(&["x", "y"]);
    let mut edit = AddonNote::from_note(&note);
    edit.fields = vec!["z".to_string()];
    assert_eq!(note.apply_hook_result(Ok(Some(edit))), Ok(()));
    assert_eq!(fields_of(&note), vec!["z", "y"]);
    assert_eq!(note.apply_hook_result(Ok(None)), Ok(()));
    assert_eq!(fields_of(&note), vec!["z", "y"]);
    let trap = AddonError::GuestTrap("t".to_string());
    assert_eq!(note.apply_hook_result(Err(trap.clone())), Err(trap));
    assert_eq!(fields_of(&note), vec!["z", "y"]);
}

#[test]
fn every_addon_runs_once_in_order_after_a_trap() {
    let (mut host, log) = new_host();
    host.load(b"A:append: [A]:").unwrap();
    host.load(b"T:trap::").unwrap();
    host.load(b"B:append: [B]:").unwrap();
    log.borrow_mut().clear();
    let mut note = note_with_fields(&["x"]);
    host.event_before_add_note(&mut note, DeckId { id: 42 });
    assert_eq!(
        *log.borrow(),
        vec![
            ("A".to_string(), "before_add_note 42 [\"x\"]".to_string()),
            ("T".to_string(), "before_add_note 42 [\"x [A]\"]".to_string()),
            ("B".to_string(), "before_add_note 42 [\"x [A]\"]".to_string()),
        ]
    );
}

#[test]
fn batch_replaces_previous_addons_in_candidate_order() {
    let (mut host, _) = new_host();
    host.load(b"old:none::stale").unwrap();
    let candidates: Vec<Vec<u8>> =
        vec![b"A:none::a".to_vec(), b"B:none::b".to_vec(), b"C:none::c".to_vec()];
    assert!(host.load_batch(&candidates).is_empty());
    let seen: Vec<(u32, String)> =
        host.get_all_tool_menu_entries().into_iter().map(|e| (e.addon_id, e.label)).collect();
    assert_eq!(seen, vec![(0, "a".to_string()), (1, "b".to_string()), (2, "c".to_string())]);
}
