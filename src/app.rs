//! The foreground state: the index, the search, the editor, the status and
//! log, and one slot per operation kind, reconciled once per tick.
use vstd::prelude::*;

use crate::content::{
    base64_decoded, decode_failure, present_fetched, presented, value_to_send, FetchedSecret, SecretValue,
};
use crate::dispatch::{Slot, SlotState};
use crate::errors::SecretError;
use crate::search::{filter_secrets, search_result, views};
use crate::text::{blank, cat, decimal, decimal_string, is_blank};
use crate::tree::{build_tree, collapsed, indexes, SecretNode};

verus! {

/// How many log lines are kept; older ones are dropped first.
pub const LOG_CAPACITY: usize = 500;

/// A read of one secret, to be run in the background.
pub struct FetchRequest {
    pub profile: Option<String>,
    pub secret_id: String,
}

/// A deletion of one secret, to be run in the background.
pub struct DeleteRequest {
    pub profile: Option<String>,
    pub secret_id: String,
}

/// A write of one secret, to be run in the background.
pub struct SaveRequest {
    pub profile: Option<String>,
    pub secret_id: String,
    pub value: SecretValue,
    pub description: Option<String>,
    /// Create a new secret rather than update an existing one.
    pub create: bool,
}

pub struct SecManagerApp {
    pub profiles: Vec<String>,
    pub selected_profile: Option<String>,
    pub default_profile: Option<String>,
    pub secret_id_input: String,
    pub editor_content: String,
    pub editor_is_binary: bool,
    pub is_editing: bool,
    pub is_creating_new: bool,
    pub secret_description: String,
    pub status: String,
    pub logs: Vec<String>,
    pub secrets_tree: SecretNode,
    pub show_secrets_tree: bool,
    pub search_query: String,
    pub all_secret_names: Vec<String>,
    pub filtered_secrets: Vec<String>,
    pub fetch_slot: Slot<Result<FetchedSecret, SecretError>>,
    pub save_slot: Slot<Result<String, SecretError>>,
    pub list_slot: Slot<Result<Vec<String>, SecretError>>,
    pub identity_slot: Slot<String>,
}

/// The log after appending `msg`, keeping the newest `LOG_CAPACITY` lines.
pub open spec fn log_after(logs: Seq<Seq<char>>, msg: Seq<char>) -> Seq<Seq<char>> {
    let all = logs.push(msg);
    if all.len() > LOG_CAPACITY {
        all.skip(all.len() - LOG_CAPACITY)
    } else {
        all
    }
}

/// The index and the search are the same in `a` and `b`.
pub open spec fn same_index(a: SecManagerApp, b: SecManagerApp) -> bool {
    &&& a.secrets_tree == b.secrets_tree
    &&& a.all_secret_names == b.all_secret_names
    &&& a.filtered_secrets == b.filtered_secrets
    &&& a.search_query == b.search_query
}

/// The profiles, the ID field, the description and the view flags are the
/// same in `a` and `b`.
pub open spec fn same_fields(a: SecManagerApp, b: SecManagerApp) -> bool {
    &&& a.profiles == b.profiles
    &&& a.selected_profile == b.selected_profile
    &&& a.default_profile == b.default_profile
    &&& a.secret_id_input == b.secret_id_input
    &&& a.secret_description == b.secret_description
    &&& a.show_secrets_tree == b.show_secrets_tree
}

/// As `same_fields`, and the edit flags too.
pub open spec fn same_session(a: SecManagerApp, b: SecManagerApp) -> bool {
    &&& same_fields(a, b)
    &&& a.is_editing == b.is_editing
    &&& a.is_creating_new == b.is_creating_new
}

/// As `same_session`, and the editor's text and binary flag too.
pub open spec fn same_editor(a: SecManagerApp, b: SecManagerApp) -> bool {
    &&& same_session(a, b)
    &&& a.editor_content == b.editor_content
    &&& a.editor_is_binary == b.editor_is_binary
}

/// The operation slots are the same in `a` and `b`.
pub open spec fn same_slots(a: SecManagerApp, b: SecManagerApp) -> bool {
    &&& a.fetch_slot == b.fetch_slot
    &&& a.save_slot == b.save_slot
    &&& a.list_slot == b.list_slot
    &&& a.identity_slot == b.identity_slot
}

/// The profile operations run under: the selected one, else the default.
pub open spec fn active_of(app: SecManagerApp) -> Option<String> {
    match app.selected_profile {
        Some(p) => Some(p),
        None => app.default_profile,
    }
}

/// The index, the identifier list and the search results agree with
/// `names` and the current query.
pub open spec fn index_of(app: SecManagerApp, names: Seq<Seq<char>>) -> bool {
    &&& indexes(app.secrets_tree, names)
    &&& collapsed(app.secrets_tree)
    &&& views(app.all_secret_names@) == names
    &&& search_result(names, app.search_query@, views(app.filtered_secrets@))
}

pub open spec fn loaded_message(n: nat, cached: bool) -> Seq<char> {
    if cached {
        "Loaded "@ + decimal(n) + " cached secrets"@
    } else {
        "Loaded "@ + decimal(n) + " secrets"@
    }
}

/// `b` is `a` with `msg` shown as the status and appended to the log.
pub open spec fn reported(a: SecManagerApp, b: SecManagerApp, msg: Seq<char>) -> bool {
    b.status@ == msg && views(b.logs@) == log_after(views(a.logs@), msg)
}

/// `b` is `a` after showing the outcome `res` of a read.
pub open spec fn fetch_effect(a: SecManagerApp, b: SecManagerApp, res: Result<FetchedSecret, SecretError>) -> bool {
    &&& same_index(b, a)
    &&& same_slots(b, a)
    &&& same_session(b, a)
    &&& match res {
        Ok(f) => {
            let (content, is_binary, status, log) = presented(f, a.editor_is_binary);
            &&& match content {
                Some(c) => b.editor_content@ == c,
                None => b.editor_content == a.editor_content,
            }
            &&& b.editor_is_binary == is_binary
            &&& b.status@ == status
            &&& views(b.logs@) == log_after(views(a.logs@), log)
        },
        Err(e) => {
            &&& b.editor_content == a.editor_content
            &&& b.editor_is_binary == a.editor_is_binary
            &&& b.status@ == "Error: "@ + e.message@
            &&& views(b.logs@) == log_after(views(a.logs@), "Fetch error: "@ + e.message@)
        },
    }
}

/// `b` is `a` after showing the outcome `res` of a save.
pub open spec fn save_effect(a: SecManagerApp, b: SecManagerApp, res: Result<String, SecretError>) -> bool {
    &&& same_index(b, a)
    &&& same_slots(b, a)
    &&& same_fields(b, a)
    &&& b.editor_content == a.editor_content
    &&& b.editor_is_binary == a.editor_is_binary
    &&& match res {
        Ok(msg) => {
            &&& b.status == msg
            &&& views(b.logs@) == log_after(views(a.logs@), msg@)
            &&& !b.is_editing
            &&& !b.is_creating_new
        },
        Err(e) => {
            &&& reported(a, b, "Save error: "@ + e.message@)
            &&& b.is_editing == a.is_editing
            &&& b.is_creating_new == a.is_creating_new
        },
    }
}

/// `b` is `a` after showing the outcome `res` of a listing, and `r` the
/// profile whose snapshot is to be saved.
pub open spec fn list_effect(
    a: SecManagerApp,
    b: SecManagerApp,
    res: Result<Vec<String>, SecretError>,
    r: Option<String>,
) -> bool {
    &&& same_editor(b, a)
    &&& same_slots(b, a)
    &&& match res {
        Ok(names) => {
            &&& index_of(b, views(names@))
            &&& b.all_secret_names@ == names@
            &&& b.search_query == a.search_query
            &&& reported(a, b, loaded_message(names@.len(), false))
            &&& r == active_of(a)
        },
        Err(e) => {
            &&& r is None
            &&& same_index(b, a)
            &&& b.status@ == "Error listing secrets: "@ + e.message@
            &&& views(b.logs@) == log_after(views(a.logs@), "List secrets error: "@ + e.message@)
        },
    }
}

/// The first step of a tick: a finished identity check is shown.
pub open spec fn identity_step(a: SecManagerApp, b: SecManagerApp) -> bool {
    match a.identity_slot.state {
        SlotState::Completed(msg) => {
            &&& b.status == msg
            &&& views(b.logs@) == log_after(views(a.logs@), msg@)
            &&& same_index(b, a)
            &&& same_editor(b, a)
            &&& b.identity_slot == Slot::<String> { state: SlotState::Idle }
            &&& b.fetch_slot == a.fetch_slot
            &&& b.save_slot == a.save_slot
            &&& b.list_slot == a.list_slot
        },
        _ => b == a,
    }
}

/// The second step: a finished read is taken and shown.
pub open spec fn fetch_step(a: SecManagerApp, b: SecManagerApp) -> bool {
    match a.fetch_slot.state {
        SlotState::Completed(res) => fetch_effect(
            SecManagerApp { fetch_slot: Slot { state: SlotState::Idle }, ..a },
            b,
            res,
        ),
        _ => b == a,
    }
}

/// The third step: a finished save is taken and shown.
pub open spec fn save_step(a: SecManagerApp, b: SecManagerApp) -> bool {
    match a.save_slot.state {
        SlotState::Completed(res) => save_effect(
            SecManagerApp { save_slot: Slot { state: SlotState::Idle }, ..a },
            b,
            res,
        ),
        _ => b == a,
    }
}

/// The last step: a finished listing is taken and shown, and `r` says
/// which profile's snapshot is to be saved.
pub open spec fn list_step(a: SecManagerApp, b: SecManagerApp, r: Option<String>) -> bool {
    match a.list_slot.state {
        SlotState::Completed(res) => list_effect(
            SecManagerApp { list_slot: Slot { state: SlotState::Idle }, ..a },
            b,
            res,
            r,
        ),
        _ => b == a && r is None,
    }
}

/// One tick: the identity check, the read, the save and the listing, in
/// that order, each taken and shown where it has finished.
pub open spec fn tick(a: SecManagerApp, b: SecManagerApp, r: Option<String>) -> bool {
    exists|s1: SecManagerApp, s2: SecManagerApp, s3: SecManagerApp|
        identity_step(a, s1) && fetch_step(s1, s2) && save_step(s2, s3) && list_step(s3, b, r)
}

fn loaded_text(n: usize, cached: bool) -> (r: String)
    ensures
        r@ == loaded_message(n as nat, cached),
{
    let digits = decimal_string(n);
    let head = cat("Loaded ", digits.as_str());
    if cached {
        cat(head.as_str(), " cached secrets")
    } else {
        cat(head.as_str(), " secrets")
    }
}

impl SecManagerApp {
    /// A fresh state for the given profiles and default profile, with the
    /// index built from the cached identifiers where there are any.
    pub fn new(profiles: Vec<String>, default_profile: Option<String>, cached: Option<Vec<String>>) -> (r: SecManagerApp)
        ensures
            r.profiles == profiles,
            r.default_profile == default_profile,
            r.selected_profile == default_profile,
            r.search_query@.len() == 0,
            r.fetch_slot.state is Idle,
            r.save_slot.state is Idle,
            r.list_slot.state is Idle,
            r.identity_slot.state is Idle,
            match cached {
                Some(names) => index_of(r, views(names@)) && r.status@ == loaded_message(
                    names@.len(),
                    true,
                ) && views(r.logs@) == seq![loaded_message(names@.len(), true)],
                None => index_of(r, Seq::empty()) && r.status@.len() == 0 && r.logs@.len() == 0,
            },
    {
        let empty: Vec<String> = Vec::new();
        let mut app = SecManagerApp {
            profiles,
            selected_profile: default_profile.clone(),
            default_profile,
            secret_id_input: String::new(),
            editor_content: String::new(),
            editor_is_binary: false,
            is_editing: false,
            is_creating_new: false,
            secret_description: String::new(),
            status: String::new(),
            logs: Vec::new(),
            secrets_tree: build_tree(empty.as_slice()),
            show_secrets_tree: false,
            search_query: String::new(),
            all_secret_names: Vec::new(),
            filtered_secrets: Vec::new(),
            fetch_slot: Slot::new(),
            save_slot: Slot::new(),
            list_slot: Slot::new(),
            identity_slot: Slot::new(),
        };
        assert(views(empty@) =~= Seq::<Seq<char>>::empty());
        assert(views(app.all_secret_names@) =~= Seq::<Seq<char>>::empty());
        assert(views(app.filtered_secrets@) =~= Seq::<Seq<char>>::empty());
        assert(is_blank(app.search_query@));
        if let Some(names) = cached {
            app.build_secrets_tree(names.as_slice());
            let msg = loaded_text(names.len(), true);
            app.status = msg.clone();
            app.push_log(msg);
            assert(views(app.logs@) =~= seq![loaded_message(names@.len(), true)]);
        }
        app
    }

    /// Appends `msg` to the log, dropping the oldest lines past
    /// `LOG_CAPACITY`.
    pub fn push_log(&mut self, msg: String)
        ensures
            views(final(self).logs@) == log_after(views(old(self).logs@), msg@),
            final(self).status == old(self).status,
            same_index(*final(self), *old(self)),
            same_editor(*final(self), *old(self)),
            same_slots(*final(self), *old(self)),
    {
        let mut logs: Vec<String> = Vec::new();
        std::mem::swap(&mut self.logs, &mut logs);
        let ghost all = views(logs@).push(msg@);
        logs.push(msg);
        assert(views(logs@) =~= all);
        let ghost mut dropped: int = 0;
        while logs.len() > LOG_CAPACITY
            invariant
                0 <= dropped <= all.len(),
                views(logs@) == all.skip(dropped),
                logs@.len() == all.len() - dropped,
                dropped > 0 ==> all.len() - dropped >= LOG_CAPACITY,
            decreases logs.len(),
        {
            let ghost before = logs@;
            logs.remove(0);
            assert(logs@ =~= before.drop_first());
            assert(views(logs@) =~= views(before).drop_first());
            proof {
                dropped = dropped + 1;
            }
            assert(views(logs@) =~= all.skip(dropped));
        }
        assert(views(logs@) =~= log_after(views(old(self).logs@), msg@));
        self.logs = logs;
    }

    /// Rebuilds the index and the search results from `secret_names`.
    pub fn build_secrets_tree(&mut self, secret_names: &[String])
        ensures
            index_of(*final(self), views(secret_names@)),
            final(self).all_secret_names@ == secret_names@,
            final(self).logs == old(self).logs,
            final(self).status == old(self).status,
            final(self).search_query == old(self).search_query,
            same_editor(*final(self), *old(self)),
            same_slots(*final(self), *old(self)),
    {
        self.secrets_tree = build_tree(secret_names);
        let mut names: Vec<String> = Vec::new();
        let mut i: usize = 0;
        while i < secret_names.len()
            invariant
                i <= secret_names@.len(),
                names@ == secret_names@.take(i as int),
            decreases secret_names.len() - i,
        {
            names.push(secret_names[i].clone());
            i += 1;
        }
        assert(names@ =~= secret_names@);
        self.all_secret_names = names;
        self.update_search_results();
    }

    /// Recomputes the search results for the current query.
    pub fn update_search_results(&mut self)
        ensures
            search_result(views(final(self).all_secret_names@), final(self).search_query@, views(final(self).filtered_secrets@)),
            final(self).logs == old(self).logs,
            final(self).status == old(self).status,
            final(self).secrets_tree == old(self).secrets_tree,
            final(self).all_secret_names == old(self).all_secret_names,
            final(self).search_query == old(self).search_query,
            same_editor(*final(self), *old(self)),
            same_slots(*final(self), *old(self)),
    {
        self.filtered_secrets = filter_secrets(self.all_secret_names.as_slice(), self.search_query.as_str());
    }

    /// Shows `msg` as the status and logs it.
    pub fn report(&mut self, msg: String)
        ensures
            final(self).status == msg,
            views(final(self).logs@) == log_after(views(old(self).logs@), msg@),
            same_index(*final(self), *old(self)),
            same_editor(*final(self), *old(self)),
            same_slots(*final(self), *old(self)),
    {
        self.status = msg.clone();
        self.push_log(msg);
    }

    /// Starts reading the secret named in the ID field, unless a read is
    /// already under way.
    pub fn fetch_current_secret(&mut self) -> (r: Option<FetchRequest>)
        ensures
            !(old(self).fetch_slot.state is Idle) ==> r is None && *final(self) == *old(self),
            old(self).fetch_slot.state is Idle ==> {
                &&& r is Some
                &&& r->0.secret_id == old(self).secret_id_input
                &&& r->0.profile == active_of(*old(self))
                &&& final(self).fetch_slot.state is Pending
                &&& final(self).status@ == "Fetching secret..."@
                &&& views(final(self).logs@) == log_after(
                    views(old(self).logs@),
                    "Fetching secret: "@ + old(self).secret_id_input@,
                )
                &&& !final(self).is_editing
                &&& !final(self).is_creating_new
                &&& final(self).secret_id_input == old(self).secret_id_input
                &&& same_index(*final(self), *old(self))
            },
    {
        if !self.fetch_slot.start() {
            return None;
        }
        self.status = String::from_str("Fetching secret...");
        let line = cat("Fetching secret: ", self.secret_id_input.as_str());
        self.push_log(line);
        self.is_editing = false;
        self.is_creating_new = false;
        Some(FetchRequest { profile: self.active_profile(), secret_id: self.secret_id_input.clone() })
    }

    /// Puts `name` in the ID field and starts reading it, unless a read is
    /// already under way.
    pub fn fetch_secret_by_name(&mut self, name: &str) -> (r: Option<FetchRequest>)
        ensures
            !(old(self).fetch_slot.state is Idle) ==> r is None && *final(self) == *old(self),
            old(self).fetch_slot.state is Idle ==> {
                &&& r is Some
                &&& r->0.secret_id@ == name@
                &&& r->0.profile == active_of(*old(self))
                &&& final(self).fetch_slot.state is Pending
                &&& final(self).secret_id_input@ == name@
                &&& final(self).status@ == "Fetching secret: "@ + name@
                &&& views(final(self).logs@) == log_after(
                    views(old(self).logs@),
                    "Fetching secret: "@ + name@,
                )
                &&& !final(self).is_editing
                &&& !final(self).is_creating_new
                &&& same_index(*final(self), *old(self))
            },
    {
        if !self.fetch_slot.start() {
            return None;
        }
        self.secret_id_input = String::from_str(name);
        let line = cat("Fetching secret: ", name);
        self.report(line);
        self.is_editing = false;
        self.is_creating_new = false;
        Some(FetchRequest { profile: self.active_profile(), secret_id: String::from_str(name) })
    }

    /// Shows the outcome of a read.
    pub fn apply_fetch_result(&mut self, res: Result<FetchedSecret, SecretError>)
        ensures
            fetch_effect(*old(self), *final(self), res),
    {
        match res {
            Ok(f) => {
                let shown = present_fetched(f, self.editor_is_binary);
                if let Some(c) = shown.content {
                    self.editor_content = c;
                }
                self.editor_is_binary = shown.is_binary;
                self.status = shown.status;
                self.push_log(shown.log);
            },
            Err(e) => {
                self.status = cat("Error: ", e.message.as_str());
                let line = cat("Fetch error: ", e.message.as_str());
                self.push_log(line);
            },
        }
    }

    /// Starts saving the editor's content under the ID field: creating in
    /// create mode, else updating. Refused, with a status saying why, for a
    /// blank ID or malformed base64; refused silently while a save is under
    /// way.
    pub fn save_secret(&mut self) -> (r: Option<SaveRequest>)
        ensures
            is_blank(old(self).secret_id_input@) ==> r is None && final(self).status@
                == "Secret ID cannot be empty"@ && views(final(self).logs@) == log_after(
                views(old(self).logs@),
                "Save failed: Secret ID cannot be empty"@,
            ) && final(self).save_slot == old(self).save_slot,
            !is_blank(old(self).secret_id_input@) && !(old(self).save_slot.state is Idle) ==> r is None
                && *final(self) == *old(self),
            r is Some ==> {
                &&& !is_blank(old(self).secret_id_input@)
                &&& old(self).save_slot.state is Idle
                &&& final(self).save_slot.state is Pending
                &&& r->0.secret_id == old(self).secret_id_input
                &&& r->0.profile == active_of(*old(self))
                &&& r->0.create == old(self).is_creating_new
                &&& (r->0.description is None <==> is_blank(old(self).secret_description@))
                &&& (r->0.description is Some ==> r->0.description->0 == old(self).secret_description)
                &&& final(self).status@ == (if old(self).is_creating_new {
                    "Creating secret..."@
                } else {
                    "Updating secret..."@
                })
            },
            !is_blank(old(self).secret_id_input@) && old(self).save_slot.state is Idle ==> {
                &&& !old(self).editor_is_binary ==> r is Some && (r->0.value matches SecretValue::Text(
                    t,
                ) && t@ == old(self).editor_content@)
                &&& old(self).editor_is_binary ==> match base64_decoded(old(self).editor_content@) {
                    Some(b) => r is Some && (r->0.value matches SecretValue::Binary(v) && v@ == b),
                    None => {
                        &&& r is None
                        &&& final(self).save_slot == old(self).save_slot
                        &&& same_editor(*final(self), *old(self))
                        &&& exists|m: Seq<char>|
                            decode_failure(m) && reported(*old(self), *final(self), "Save error: "@ + m)
                    },
                }
                &&& r is Some ==> views(final(self).logs@) == log_after(
                    views(old(self).logs@),
                    (if old(self).is_creating_new {
                        "Creating secret: "@
                    } else {
                        "Updating secret: "@
                    }) + old(self).secret_id_input@,
                )
            },
    {
        if blank(self.secret_id_input.as_str()) {
            self.status = String::from_str("Secret ID cannot be empty");
            self.push_log(String::from_str("Save failed: Secret ID cannot be empty"));
            return None;
        }
        if !self.save_slot.is_idle() {
            return None;
        }
        let value = match value_to_send(self.editor_content.as_str(), self.editor_is_binary) {
            Ok(v) => v,
            Err(e) => {
                let msg = cat("Save error: ", e.message.as_str());
                self.report(msg);
                assert(decode_failure(e.message@) && reported(*old(self), *self, "Save error: "@ + e.message@));
                return None;
            },
        };
        self.save_slot.start();
        let description = if blank(self.secret_description.as_str()) {
            None
        } else {
            Some(self.secret_description.clone())
        };
        let create = self.is_creating_new;
        if create {
            self.status = String::from_str("Creating secret...");
            let line = cat("Creating secret: ", self.secret_id_input.as_str());
            self.push_log(line);
        } else {
            self.status = String::from_str("Updating secret...");
            let line = cat("Updating secret: ", self.secret_id_input.as_str());
            self.push_log(line);
        }
        Some(
            SaveRequest {
                profile: self.active_profile(),
                secret_id: self.secret_id_input.clone(),
                value,
                description,
                create,
            },
        )
    }

    /// Starts deleting the secret named in the ID field. Saves and
    /// deletions share one slot, so at most one write is under way. Refused,
    /// with nothing changed, in create mode, for a blank ID, or while a write
    /// is under way; the outcome is shown as a save's is.
    pub fn begin_delete(&mut self) -> (r: Option<DeleteRequest>)
        ensures
            old(self).is_creating_new || is_blank(old(self).secret_id_input@) || !(
            old(self).save_slot.state is Idle) ==> r is None && *final(self) == *old(self),
            r is None <==> (old(self).is_creating_new || is_blank(old(self).secret_id_input@) || !(
            old(self).save_slot.state is Idle)),
            r is Some ==> {
                &&& r->0.secret_id == old(self).secret_id_input
                &&& r->0.profile == active_of(*old(self))
                &&& final(self).save_slot.state is Pending
                &&& final(self).status@ == "Deleting secret..."@
                &&& views(final(self).logs@) == log_after(
                    views(old(self).logs@),
                    "Deleting secret: "@ + old(self).secret_id_input@,
                )
                &&& same_index(*final(self), *old(self))
                &&& same_editor(*final(self), *old(self))
            },
    {
        if self.is_creating_new || blank(self.secret_id_input.as_str()) || !self.save_slot.is_idle() {
            return None;
        }
        self.save_slot.start();
        self.status = String::from_str("Deleting secret...");
        let line = cat("Deleting secret: ", self.secret_id_input.as_str());
        self.push_log(line);
        Some(DeleteRequest { profile: self.active_profile(), secret_id: self.secret_id_input.clone() })
    }

    /// Shows the outcome of a save; a successful one ends edit mode.
    pub fn apply_save_result(&mut self, res: Result<String, SecretError>)
        ensures
            save_effect(*old(self), *final(self), res),
    {
        match res {
            Ok(msg) => {
                self.report(msg);
                self.is_editing = false;
                self.is_creating_new = false;
            },
            Err(e) => {
                let msg = cat("Save error: ", e.message.as_str());
                self.report(msg);
            },
        }
    }

    /// Shows the outcome of a listing. A successful one rebuilds the index
    /// and the search and returns the profile whose snapshot is to be saved.
    pub fn apply_list_result(&mut self, res: Result<Vec<String>, SecretError>) -> (r: Option<String>)
        ensures
            list_effect(*old(self), *final(self), res, r),
    {
        match res {
            Ok(names) => {
                self.build_secrets_tree(names.as_slice());
                let msg = loaded_text(names.len(), false);
                self.report(msg);
                self.active_profile()
            },
            Err(e) => {
                self.status = cat("Error listing secrets: ", e.message.as_str());
                let line = cat("List secrets error: ", e.message.as_str());
                self.push_log(line);
                None
            },
        }
    }

    /// Lists the secrets of the active profile: from `cached`, the snapshot
    /// saved for that profile, where there is one; else returns the profile
    /// to list remotely, unless a listing is already under way.
    pub fn begin_list(&mut self, cached: Option<Vec<String>>) -> (r: Option<String>)
        ensures
            final(self).show_secrets_tree,
            final(self).profiles == old(self).profiles,
            final(self).selected_profile == old(self).selected_profile,
            final(self).default_profile == old(self).default_profile,
            final(self).editor_content == old(self).editor_content,
            final(self).editor_is_binary == old(self).editor_is_binary,
            final(self).fetch_slot == old(self).fetch_slot,
            final(self).save_slot == old(self).save_slot,
            final(self).identity_slot == old(self).identity_slot,
            active_of(*old(self)) is None ==> {
                &&& r is None
                &&& final(self).status@ == "No profile selected"@
                &&& views(final(self).logs@) == log_after(
                    log_after(views(old(self).logs@), "Listing secrets..."@),
                    "No profile selected"@,
                )
                &&& same_index(*final(self), *old(self))
                &&& final(self).list_slot == old(self).list_slot
            },
            active_of(*old(self)) is Some && cached is Some ==> {
                &&& r is None
                &&& index_of(*final(self), views(cached->0@))
                &&& final(self).status@ == loaded_message(cached->0@.len(), true)
                &&& views(final(self).logs@) == log_after(
                    log_after(views(old(self).logs@), "Listing secrets..."@),
                    loaded_message(cached->0@.len(), true),
                )
                &&& final(self).list_slot == old(self).list_slot
            },
            active_of(*old(self)) is Some && cached is None ==> {
                &&& (r is Some <==> old(self).list_slot.state is Idle)
                &&& (r is Some ==> r == active_of(*old(self)) && final(self).list_slot.state is Pending)
                &&& (r is None ==> final(self).list_slot == old(self).list_slot)
                &&& same_index(*final(self), *old(self))
                &&& final(self).status@ == "Listing secrets..."@
                &&& views(final(self).logs@) == log_after(views(old(self).logs@), "Listing secrets..."@)
            },
    {
        self.report(String::from_str("Listing secrets..."));
        self.show_secrets_tree = true;
        match self.active_profile() {
            None => {
                self.report(String::from_str("No profile selected"));
                None
            },
            Some(p) => match cached {
                Some(names) => {
                    self.build_secrets_tree(names.as_slice());
                    let msg = loaded_text(names.len(), true);
                    self.report(msg);
                    None
                },
                None => {
                    if self.list_slot.start() {
                        Some(p)
                    } else {
                        None
                    }
                },
            },
        }
    }

    /// Lists the secrets of the active profile remotely, whatever is cached:
    /// returns the profile to list, unless a listing is already under way.
    pub fn force_reload(&mut self) -> (r: Option<String>)
        ensures
            final(self).show_secrets_tree,
            same_index(*final(self), *old(self)),
            final(self).fetch_slot == old(self).fetch_slot,
            final(self).save_slot == old(self).save_slot,
            final(self).identity_slot == old(self).identity_slot,
            active_of(*old(self)) is None ==> {
                &&& r is None
                &&& final(self).status@ == "No profile selected"@
                &&& views(final(self).logs@) == log_after(
                    log_after(views(old(self).logs@), "Force reloading secrets..."@),
                    "No profile selected"@,
                )
                &&& final(self).list_slot == old(self).list_slot
            },
            active_of(*old(self)) is Some ==> {
                &&& (r is Some <==> old(self).list_slot.state is Idle)
                &&& (r is Some ==> r == active_of(*old(self)) && final(self).list_slot.state is Pending)
                &&& (r is None ==> final(self).list_slot == old(self).list_slot)
                &&& final(self).status@ == "Reloading secrets from AWS..."@
                &&& views(final(self).logs@) == log_after(views(old(self).logs@), "Force reloading secrets..."@)
            },
    {
        self.status = String::from_str("Reloading secrets from AWS...");
        self.push_log(String::from_str("Force reloading secrets..."));
        self.show_secrets_tree = true;
        match self.active_profile() {
            None => {
                self.report(String::from_str("No profile selected"));
                None
            },
            Some(p) => {
                if self.list_slot.start() {
                    Some(p)
                } else {
                    None
                }
            },
        }
    }

    /// Starts checking the identity of the active profile: returns the
    /// profile to check, unless a check is already under way.
    pub fn begin_identity_check(&mut self) -> (r: Option<String>)
        ensures
            same_index(*final(self), *old(self)),
            same_editor(*final(self), *old(self)),
            final(self).fetch_slot == old(self).fetch_slot,
            final(self).save_slot == old(self).save_slot,
            final(self).list_slot == old(self).list_slot,
            active_of(*old(self)) is None ==> {
                &&& r is None
                &&& final(self).status@ == "No profile selected"@
                &&& views(final(self).logs@) == log_after(
                    log_after(views(old(self).logs@), "Checking SSO..."@),
                    "No profile selected"@,
                )
                &&& final(self).identity_slot == old(self).identity_slot
            },
            active_of(*old(self)) is Some ==> {
                &&& (r is Some <==> old(self).identity_slot.state is Idle)
                &&& (r is Some ==> r == active_of(*old(self)) && final(self).identity_slot.state is Pending
                    && reported(*old(self), *final(self), "Checking SSO..."@))
                &&& (r is None ==> *final(self) == *old(self))
            },
    {
        match self.active_profile() {
            None => {
                self.report(String::from_str("Checking SSO..."));
                self.report(String::from_str("No profile selected"));
                None
            },
            Some(p) => {
                if self.identity_slot.start() {
                    self.report(String::from_str("Checking SSO..."));
                    Some(p)
                } else {
                    None
                }
            },
        }
    }

    /// Takes each completed result, once, and shows it. Returns the profile
    /// whose snapshot is to be saved after a successful listing.
    pub fn handle_async_results(&mut self) -> (r: Option<String>)
        ensures
            tick(*old(self), *final(self), r),
            old(self).list_slot.state matches SlotState::Completed(Ok(_)) ==> r == active_of(*old(self)),
            !(old(self).list_slot.state matches SlotState::Completed(Ok(_))) ==> r is None,
            !(old(self).identity_slot.state is Completed) && !(old(self).fetch_slot.state is Completed)
                && !(old(self).save_slot.state is Completed) && !(old(self).list_slot.state is Completed)
                ==> *final(self) == *old(self),
    {
        let ghost s0 = *self;
        if let Some(msg) = self.identity_slot.poll() {
            self.report(msg);
        }
        let ghost s1 = *self;
        assert(identity_step(s0, s1));
        if let Some(res) = self.fetch_slot.poll() {
            self.apply_fetch_result(res);
        }
        let ghost s2 = *self;
        assert(fetch_step(s1, s2));
        if let Some(res) = self.save_slot.poll() {
            self.apply_save_result(res);
        }
        let ghost s3 = *self;
        assert(save_step(s2, s3));
        let r = match self.list_slot.poll() {
            Some(res) => self.apply_list_result(res),
            None => None,
        };
        assert(list_step(s3, *self, r));
        assert(active_of(s3) == active_of(s0));
        r
    }

    /// Enters edit mode for the fetched secret, where there is one to edit.
    pub fn start_edit(&mut self) -> (entered: bool)
        ensures
            entered == (old(self).editor_content@.len() > 0 && old(self).secret_id_input@.len() > 0
                && !old(self).is_editing),
            entered ==> final(self).is_editing && !final(self).is_creating_new && final(self).status@
                == "Edit mode enabled"@ && views(final(self).logs@) == log_after(
                views(old(self).logs@),
                "Switched to edit mode"@,
            ),
            !entered ==> *final(self) == *old(self),
    {
        if self.editor_content.as_str().is_empty() || self.secret_id_input.as_str().is_empty()
            || self.is_editing {
            return false;
        }
        self.is_editing = true;
        self.is_creating_new = false;
        self.status = String::from_str("Edit mode enabled");
        self.push_log(String::from_str("Switched to edit mode"));
        true
    }

    /// Enters create mode with an empty ID, description and content, unless
    /// an edit is under way.
    pub fn start_new_secret(&mut self) -> (entered: bool)
        ensures
            entered == !old(self).is_editing,
            entered ==> final(self).is_editing && final(self).is_creating_new
                && final(self).editor_content@.len() == 0 && final(self).secret_id_input@.len() == 0
                && final(self).secret_description@.len() == 0 && final(self).status@
                == "Create new secret mode"@,
            !entered ==> *final(self) == *old(self),
    {
        if self.is_editing {
            return false;
        }
        self.is_creating_new = true;
        self.is_editing = true;
        self.editor_content = String::new();
        self.secret_description = String::new();
        self.secret_id_input = String::new();
        self.status = String::from_str("Create new secret mode");
        self.push_log(String::from_str("Switched to create new secret mode"));
        true
    }

    /// Leaves edit or create mode.
    pub fn cancel_edit(&mut self)
        ensures
            !final(self).is_editing,
            !final(self).is_creating_new,
            final(self).editor_content == old(self).editor_content,
            final(self).status@ == "Edit cancelled"@,
            views(final(self).logs@) == log_after(views(old(self).logs@), "Edit mode cancelled"@),
    {
        self.is_editing = false;
        self.is_creating_new = false;
        self.status = String::from_str("Edit cancelled");
        self.push_log(String::from_str("Edit mode cancelled"));
    }

    /// The profile operations run under: the selected one, else the default.
    pub fn active_profile(&self) -> (r: Option<String>)
        ensures
            r == active_of(*self),
    {
        match &self.selected_profile {
            Some(p) => Some(p.clone()),
            None => self.default_profile.clone(),
        }
    }
}

} // verus!
