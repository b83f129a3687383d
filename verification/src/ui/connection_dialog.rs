//! The connection dialog: the saved profiles with the state of their last
//! connection check, and the form that edits or creates a profile.

use vstd::prelude::*;
use crate::connection::profile::{
    engine_default_port, form_port, profile_from_form, ConnectionProfile, DatabaseEngine,
};
use crate::strings::{decimal, u64_to_decimal};

verus! {

/// Whether a saved profile could be connected to, last time it was tried.
#[derive(Debug, Clone, Copy, PartialEq, Eq, Structural)]
pub enum ConnStatus {
    Checking,
    Reachable,
    Failed,
}

/// The outcome of the form's "Test" button.
#[derive(Debug, Clone)]
pub enum TestState {
    Idle,
    Testing,
    Succeeded,
    Failed(String),
}

/// The dialog's state; the form's fields hold the text typed into them.
pub struct ConnectionDialog {
    pub visible: bool,
    pub saved_profiles: Vec<ConnectionProfile>,
    pub conn_statuses: Vec<(String, ConnStatus)>,
    pub form_profile_id: Option<String>,
    pub engine: DatabaseEngine,
    pub name: String,
    pub host: String,
    pub port: String,
    pub user: String,
    pub password: String,
    pub database: String,
    pub test_state: TestState,
}

/// The status recorded for an id: the first entry with it, or `Checking`.
pub open spec fn status_of(sts: Seq<(String, ConnStatus)>, id: Seq<char>) -> ConnStatus
    decreases sts.len(),
{
    if sts.len() == 0 {
        ConnStatus::Checking
    } else if sts[0].0@ == id {
        sts[0].1
    } else {
        status_of(sts.drop_first(), id)
    }
}

/// The RGBA color of a status dot: grey while checking, green when the
/// connection worked, red when it failed.
pub open spec fn status_color_of(s: ConnStatus) -> u32 {
    match s {
        ConnStatus::Checking => 0x585b70ff,
        ConnStatus::Reachable => 0xa6e3a1ff,
        ConnStatus::Failed => 0xf38ba8ff,
    }
}

/// The color of a status dot.
pub fn status_color(s: ConnStatus) -> (r: u32)
    ensures
        r == status_color_of(s),
{
    match s {
        ConnStatus::Checking => 0x585b70ff,
        ConnStatus::Reachable => 0xa6e3a1ff,
        ConnStatus::Failed => 0xf38ba8ff,
    }
}

/// The status recorded for a saved profile.
pub fn status_for(sts: &Vec<(String, ConnStatus)>, id: &String) -> (r: ConnStatus)
    ensures
        r == status_of(sts@, id@),
{
    let n = sts.len();
    let mut i: usize = 0;
    proof {
        assert(sts@.skip(0) =~= sts@);
    }
    while i < n
        invariant
            i <= n == sts@.len(),
            status_of(sts@, id@) == status_of(sts@.skip(i as int), id@),
        decreases n - i,
    {
        proof {
            assert(sts@.skip(i as int).drop_first() =~= sts@.skip(i + 1));
        }
        if sts[i].0 == *id {
            return sts[i].1;
        }
        i = i + 1;
    }
    proof {
        assert(sts@.skip(n as int).len() == 0);
    }
    ConnStatus::Checking
}

/// Records a status for an id: the first entry with the id takes it, or a new
/// entry goes last.
pub fn set_status(sts: &mut Vec<(String, ConnStatus)>, id: String, s: ConnStatus)
    ensures
        status_of(final(sts)@, id@) == s,
        forall|other: Seq<char>| other != id@ ==> status_of(final(sts)@, other) == status_of(old(sts)@, other),
{
    let n = sts.len();
    let mut i: usize = 0;
    while i < n
        invariant
            i <= n == sts@.len(),
            sts@ == old(sts)@,
            forall|k: int| 0 <= k < i ==> (#[trigger] sts@[k]).0@ != id@,
        decreases n - i,
    {
        if sts[i].0 == id {
            proof {
                lemma_status_update(sts@, i as int, id, s);
            }
            sts.set(i, (id, s));
            return;
        }
        i = i + 1;
    }
    proof {
        lemma_status_push(sts@, id, s);
    }
    sts.push((id, s));
}

proof fn lemma_status_update(sts: Seq<(String, ConnStatus)>, i: int, id: String, s: ConnStatus)
    requires
        0 <= i < sts.len(),
        sts[i].0@ == id@,
        forall|k: int| 0 <= k < i ==> (#[trigger] sts[k]).0@ != id@,
    ensures
        status_of(sts.update(i, (id, s)), id@) == s,
        forall|other: Seq<char>| other != id@ ==> status_of(sts.update(i, (id, s)), other) == status_of(sts, other),
    decreases i,
{
    let u = sts.update(i, (id, s));
    if i > 0 {
        assert(u.drop_first() =~= sts.drop_first().update(i - 1, (id, s)));
        assert(sts[0].0@ != id@);
        lemma_status_update(sts.drop_first(), i - 1, id, s);
        assert forall|other: Seq<char>| other != id@ implies status_of(u, other) == status_of(sts, other) by {
            assert(u[0] == sts[0]);
            assert(status_of(u.drop_first(), other) == status_of(sts.drop_first(), other));
            if u[0].0@ != other {
                assert(status_of(u, other) == status_of(u.drop_first(), other));
                assert(status_of(sts, other) == status_of(sts.drop_first(), other));
            }
        }
    } else {
        assert(u.drop_first() =~= sts.drop_first());
        assert forall|other: Seq<char>| other != id@ implies status_of(u, other) == status_of(sts, other) by {
            assert(u[0].0@ == id@);
            assert(sts[0].0@ == id@);
        }
    }
}

proof fn lemma_status_push(sts: Seq<(String, ConnStatus)>, id: String, s: ConnStatus)
    requires
        forall|k: int| 0 <= k < sts.len() ==> (#[trigger] sts[k]).0@ != id@,
    ensures
        status_of(sts.push((id, s)), id@) == s,
        forall|other: Seq<char>| other != id@ ==> status_of(sts.push((id, s)), other) == status_of(sts, other),
    decreases sts.len(),
{
    let p = sts.push((id, s));
    if sts.len() > 0 {
        assert(p.drop_first() =~= sts.drop_first().push((id, s)));
        assert(sts[0].0@ != id@);
        lemma_status_push(sts.drop_first(), id, s);
        assert forall|other: Seq<char>| other != id@ implies status_of(p, other) == status_of(sts, other) by {
            assert(p[0] == sts[0]);
            assert(status_of(p.drop_first(), other) == status_of(sts.drop_first(), other));
            if p[0].0@ != other {
                assert(status_of(p, other) == status_of(p.drop_first(), other));
                assert(status_of(sts, other) == status_of(sts.drop_first(), other));
            }
        }
    } else {
        assert(p.drop_first().len() == 0);
        assert forall|other: Seq<char>| other != id@ implies status_of(p, other) == status_of(sts, other) by {
            assert(p[0].0@ == id@);
            assert(status_of(p.drop_first(), other) == ConnStatus::Checking);
        }
    }
}

impl ConnectionDialog {
    /// The form's content is the blank form: a new MySQL connection named
    /// "New Connection" to root at 127.0.0.1:3306, with no password or database.
    pub open spec fn form_is_blank(&self) -> bool {
        &&& self.form_profile_id is None
        &&& self.engine == DatabaseEngine::MySql
        &&& self.name@ == "New Connection"@
        &&& self.host@ == "127.0.0.1"@
        &&& self.port@ == "3306"@
        &&& self.user@ == "root"@
        &&& self.password@.len() == 0
        &&& self.database@.len() == 0
        &&& self.test_state is Idle
    }

    /// A visible dialog listing `saved_profiles`, each being checked, with the blank form.
    pub fn new(saved_profiles: Vec<ConnectionProfile>) -> (r: ConnectionDialog)
        ensures
            r.visible,
            r.saved_profiles@ == saved_profiles@,
            forall|i: int| 0 <= i < saved_profiles@.len() ==> status_of(r.conn_statuses@, (#[trigger] saved_profiles@[i]).id@) == ConnStatus::Checking,
            r.form_is_blank(),
    {
        let mut sts: Vec<(String, ConnStatus)> = Vec::new();
        let n = saved_profiles.len();
        let mut i: usize = 0;
        while i < n
            invariant
                i <= n == saved_profiles@.len(),
                forall|k: int| 0 <= k < i ==> status_of(sts@, (#[trigger] saved_profiles@[k]).id@) == ConnStatus::Checking,
            decreases n - i,
        {
            let id = saved_profiles[i].id.clone();
            set_status(&mut sts, id, ConnStatus::Checking);
            i = i + 1;
        }
        ConnectionDialog {
            visible: true,
            saved_profiles,
            conn_statuses: sts,
            form_profile_id: None,
            engine: DatabaseEngine::MySql,
            name: String::from_str("New Connection"),
            host: String::from_str("127.0.0.1"),
            port: String::from_str("3306"),
            user: String::from_str("root"),
            password: String::new(),
            database: String::new(),
            test_state: TestState::Idle,
        }
    }

    /// Shows the dialog with the profiles saved now, each marked as being checked.
    pub fn show(&mut self, saved_profiles: Vec<ConnectionProfile>)
        ensures
            final(self).visible,
            final(self).saved_profiles@ == saved_profiles@,
            forall|i: int| 0 <= i < saved_profiles@.len() ==> status_of(final(self).conn_statuses@, (#[trigger] saved_profiles@[i]).id@) == ConnStatus::Checking,
            final(self).form_profile_id == old(self).form_profile_id,
            final(self).engine == old(self).engine,
    {
        self.visible = true;
        let n = saved_profiles.len();
        let mut i: usize = 0;
        while i < n
            invariant
                i <= n == saved_profiles@.len(),
                self.visible,
                self.form_profile_id == old(self).form_profile_id,
                self.engine == old(self).engine,
                forall|k: int| 0 <= k < i ==> status_of(self.conn_statuses@, (#[trigger] saved_profiles@[k]).id@) == ConnStatus::Checking,
            decreases n - i,
        {
            let id = saved_profiles[i].id.clone();
            set_status(&mut self.conn_statuses, id, ConnStatus::Checking);
            i = i + 1;
        }
        self.saved_profiles = saved_profiles;
    }

    /// Hides the dialog.
    pub fn hide_dialog(&mut self)
        ensures
            !final(self).visible,
            final(self).saved_profiles@ == old(self).saved_profiles@,
            final(self).form_profile_id == old(self).form_profile_id,
    {
        self.visible = false;
    }

    /// Empties the form back to a new MySQL connection.
    pub fn reset_form(&mut self)
        ensures
            final(self).form_is_blank(),
            final(self).visible == old(self).visible,
            final(self).saved_profiles@ == old(self).saved_profiles@,
            final(self).conn_statuses@ == old(self).conn_statuses@,
    {
        self.form_profile_id = None;
        self.engine = DatabaseEngine::MySql;
        self.name = String::from_str("New Connection");
        self.host = String::from_str("127.0.0.1");
        self.port = String::from_str("3306");
        self.user = String::from_str("root");
        self.password = String::new();
        self.database = String::new();
        self.test_state = TestState::Idle;
    }

    /// Fills the form from a saved profile and its password: the port as decimal
    /// text, the default database or nothing.
    pub fn load_profile_into_form(&mut self, p: &ConnectionProfile, password: String)
        ensures
            final(self).form_profile_id == Some(p.id),
            final(self).engine == p.engine,
            final(self).name == p.name,
            final(self).host == p.host,
            final(self).port@ == decimal(p.port as nat),
            final(self).user == p.user,
            final(self).password == password,
            final(self).database@ == (match p.default_database { Some(d) => d@, None => Seq::<char>::empty() }),
            final(self).test_state is Idle,
            final(self).visible == old(self).visible,
            final(self).saved_profiles@ == old(self).saved_profiles@,
    {
        self.form_profile_id = Some(p.id.clone());
        self.engine = p.engine;
        self.name = p.name.clone();
        self.host = p.host.clone();
        self.port = u64_to_decimal(p.port as u64);
        self.user = p.user.clone();
        self.password = password;
        self.database = match &p.default_database {
            Some(d) => d.clone(),
            None => String::new(),
        };
        self.test_state = TestState::Idle;
    }

    /// Picks an engine: its default port replaces the port text, and the last
    /// test result is forgotten.
    pub fn select_engine(&mut self, e: DatabaseEngine)
        ensures
            final(self).engine == e,
            final(self).port@ == engine_default_port(e),
            final(self).test_state is Idle,
            final(self).name == old(self).name,
            final(self).host == old(self).host,
            final(self).form_profile_id == old(self).form_profile_id,
    {
        self.engine = e;
        self.port = String::from_str(e.default_port());
        self.test_state = TestState::Idle;
    }

    /// The profile the form describes; a new profile gets `fresh_id`.
    pub fn to_profile(&self, fresh_id: String) -> (r: ConnectionProfile)
        ensures
            r.id == (match self.form_profile_id { Some(i) => i, None => fresh_id }),
            r.name == self.name,
            r.engine == self.engine,
            r.host == self.host,
            r.port == form_port(self.port@),
            r.user == self.user,
            r.default_database == (if self.database@.len() == 0 { None } else { Some(self.database) }),
            r.file_path is None,
    {
        let form_id = match &self.form_profile_id {
            Some(i) => Some(i.clone()),
            None => None,
        };
        profile_from_form(
            form_id,
            fresh_id,
            self.name.clone(),
            self.engine,
            self.host.clone(),
            self.port.as_str(),
            self.user.clone(),
            self.database.clone(),
        )
    }

    /// The password typed into the form.
    pub fn password(&self) -> (r: String)
        ensures
            r == self.password,
    {
        self.password.clone()
    }

    /// A connection test has started.
    pub fn start_test(&mut self)
        ensures
            final(self).test_state is Testing,
            final(self).name == old(self).name,
            final(self).form_profile_id == old(self).form_profile_id,
    {
        self.test_state = TestState::Testing;
    }

    /// A connection test has ended: it worked, or failed with a message.
    pub fn finish_test(&mut self, result: Result<(), String>)
        ensures
            match result {
                Ok(()) => final(self).test_state is Succeeded,
                Err(m) => final(self).test_state matches TestState::Failed(x) && x == m,
            },
            final(self).name == old(self).name,
            final(self).form_profile_id == old(self).form_profile_id,
    {
        self.test_state = match result {
            Ok(()) => TestState::Succeeded,
            Err(m) => TestState::Failed(m),
        };
    }

    /// A status check of a saved profile has ended.
    pub fn set_status(&mut self, id: String, ok: bool)
        ensures
            status_of(final(self).conn_statuses@, id@) == (if ok { ConnStatus::Reachable } else { ConnStatus::Failed }),
            forall|other: Seq<char>| other != id@ ==> status_of(final(self).conn_statuses@, other) == status_of(old(self).conn_statuses@, other),
            final(self).saved_profiles@ == old(self).saved_profiles@,
    {
        set_status(&mut self.conn_statuses, id, if ok { ConnStatus::Reachable } else { ConnStatus::Failed });
    }

    /// After the form's profile was saved: the list shows the saved profiles,
    /// the saved one is checked again, and the form is blank.
    pub fn after_save(&mut self, profiles: Vec<ConnectionProfile>, saved_id: String)
        ensures
            final(self).saved_profiles@ == profiles@,
            status_of(final(self).conn_statuses@, saved_id@) == ConnStatus::Checking,
            final(self).form_is_blank(),
            final(self).visible == old(self).visible,
    {
        self.saved_profiles = profiles;
        set_status(&mut self.conn_statuses, saved_id, ConnStatus::Checking);
        self.reset_form();
    }

    /// After a saved profile was deleted: the list shows the remaining profiles,
    /// and a form that edited the deleted profile is emptied. Says whether it was.
    pub fn after_delete(&mut self, profiles: Vec<ConnectionProfile>, deleted_id: &String) -> (r: bool)
        ensures
            final(self).saved_profiles@ == profiles@,
            r == (old(self).form_profile_id matches Some(f) && f@ == deleted_id@),
            r ==> final(self).form_is_blank(),
            !r ==> final(self).form_profile_id == old(self).form_profile_id
                && final(self).name == old(self).name,
            final(self).visible == old(self).visible,
    {
        self.saved_profiles = profiles;
        let editing = match &self.form_profile_id {
            Some(f) => *f == *deleted_id,
            None => false,
        };
        if editing {
            self.reset_form();
        }
        editing
    }
}

} // verus!
