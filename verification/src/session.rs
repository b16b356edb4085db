//! The list of configured server instances and which one is active.

use vstd::prelude::*;
use crate::model::Instance;
use crate::text::{chars_of, concat, string_of, trim, trim_chars};
use crate::url::{normalize_api_url, normalized_api_url};

verus! {

/// `uuid::Uuid::new_v4().to_string()`: a fresh random (version 4) UUID in
/// its hyphenated text form, which is 36 characters long.
#[verifier::external_body]
pub(crate) fn new_uuid_string() -> (r: String)
    ensures
        r@.len() == 36,
{
    uuid::Uuid::new_v4().to_string()
}

/// What the instances file holds.
#[derive(Debug)]
pub struct InstancesFile {
    pub active_id: Option<String>,
    pub instances: Vec<Instance>,
}

impl Default for InstancesFile {
    fn default() -> (r: Self)
        ensures
            r.active_id is None,
            r.instances@.len() == 0,
    {
        InstancesFile { active_id: None, instances: Vec::new() }
    }
}

/// Why a session change was refused.
#[derive(Debug)]
pub enum SessionError {
    /// No configured instance has this id.
    UnknownInstance(String),
}

/// `i` is the first position of an instance with this id.
pub open spec fn first_with_id(s: Seq<Instance>, id: Seq<char>, i: int) -> bool {
    &&& 0 <= i < s.len()
    &&& s[i].id@ == id
    &&& forall|j: int| 0 <= j < i ==> (#[trigger] s[j]).id@ != id
}

/// Some instance has this id.
pub open spec fn has_id(s: Seq<Instance>, id: Seq<char>) -> bool {
    exists|i: int| 0 <= i < s.len() && (#[trigger] s[i]).id@ == id
}

/// Instances whose id is not `id`.
pub open spec fn not_id(id: Seq<char>) -> spec_fn(Instance) -> bool {
    |x: Instance| x.id@ != id
}

/// The instance list, and the active instance, that the application keeps
/// in its instances file at `path`.
#[derive(Debug)]
pub struct SessionStore {
    path: String,
    data: InstancesFile,
}

fn find_index(s: &Vec<Instance>, id: &str) -> (r: Option<usize>)
    ensures
        match r {
            Some(i) => first_with_id(s@, id@, i as int),
            None => !has_id(s@, id@),
        },
{
    let idv = chars_of(id);
    let mut i: usize = 0;
    while i < s.len()
        invariant
            i <= s.len(),
            idv@ == id@,
            forall|j: int| 0 <= j < i ==> (#[trigger] s@[j]).id@ != id@,
        decreases s.len() - i,
    {
        if crate::text::chars_eq(&chars_of(s[i].id.as_str()), &idv) {
            return Some(i);
        }
        i += 1;
    }
    None
}

impl SessionStore {
    pub closed spec fn spec_path(self) -> Seq<char> {
        self.path@
    }

    pub closed spec fn spec_active_id(self) -> Option<String> {
        self.data.active_id
    }

    pub closed spec fn spec_instances(self) -> Seq<Instance> {
        self.data.instances@
    }

    /// A store at `path` holding `data`.
    pub fn new(path: String, data: InstancesFile) -> (r: Self)
        ensures
            r.spec_path() == path@,
            r.spec_active_id() == data.active_id,
            r.spec_instances() == data.instances@,
    {
        SessionStore { path, data }
    }

    /// A store at `path` with the API URL of every instance normalised, as
    /// read from the instances file.
    pub fn from_loaded(path: String, data: InstancesFile) -> (r: Self)
        ensures
            r.spec_path() == path@,
            r.spec_active_id() == data.active_id,
            r.spec_instances().len() == data.instances@.len(),
            forall|i: int|
                0 <= i < data.instances@.len() ==> {
                    let a = #[trigger] r.spec_instances()[i];
                    let b = data.instances@[i];
                    &&& a.id == b.id
                    &&& a.name == b.name
                    &&& a.token == b.token
                    &&& a.device_id == b.device_id
                    &&& a.api_url@ == normalized_api_url(b.api_url@)
                },
    {
        let InstancesFile { active_id, instances } = data;
        let mut out: Vec<Instance> = Vec::new();
        let mut i: usize = 0;
        while i < instances.len()
            invariant
                i <= instances.len(),
                out@.len() == i,
                forall|j: int|
                    0 <= j < i ==> {
                        let a = #[trigger] out@[j];
                        let b = instances@[j];
                        &&& a.id == b.id
                        &&& a.name == b.name
                        &&& a.token == b.token
                        &&& a.device_id == b.device_id
                        &&& a.api_url@ == normalized_api_url(b.api_url@)
                    },
            decreases instances.len() - i,
        {
            let b = &instances[i];
            out.push(Instance {
                id: b.id.clone(),
                name: b.name.clone(),
                api_url: normalize_api_url(b.api_url.as_str()),
                token: b.token.clone(),
                device_id: b.device_id.clone(),
            });
            i += 1;
        }
        SessionStore { path, data: InstancesFile { active_id, instances: out } }
    }

    /// The instances file's location.
    pub fn path(&self) -> (r: &String)
        ensures
            r@ == self.spec_path(),
    {
        &self.path
    }

    /// The configured instances, in order.
    pub fn instances(&self) -> (r: &[Instance])
        ensures
            r@ == self.spec_instances(),
    {
        self.data.instances.as_slice()
    }

    /// What is to be written back to the instances file.
    pub fn data(&self) -> (r: &InstancesFile)
        ensures
            r.active_id == self.spec_active_id(),
            r.instances@ == self.spec_instances(),
    {
        &self.data
    }

    /// The active instance: the first one with the active id, if any.
    pub fn active(&self) -> (r: Option<&Instance>)
        ensures
            match self.spec_active_id() {
                None => r is None,
                Some(a) => match r {
                    None => !has_id(self.spec_instances(), a@),
                    Some(inst) => exists|i: int|
                        first_with_id(self.spec_instances(), a@, i) && *inst == self.spec_instances()[i],
                },
            },
    {
        match &self.data.active_id {
            None => None,
            Some(a) => match find_index(&self.data.instances, a.as_str()) {
                Some(i) => {
                    assert(first_with_id(self.spec_instances(), a@, i as int)
                        && self.data.instances@[i as int] == self.spec_instances()[i as int]);
                    Some(&self.data.instances[i])
                },
                None => None,
            },
        }
    }

    /// Makes the instance with this id active; refused when there is none.
    pub fn set_active(&mut self, id: &str) -> (r: Result<(), SessionError>)
        ensures
            final(self).spec_path() == old(self).spec_path(),
            final(self).spec_instances() == old(self).spec_instances(),
            has_id(old(self).spec_instances(), id@) ==> r is Ok && (final(self).spec_active_id()
                matches Some(a) && a@ == id@),
            !has_id(old(self).spec_instances(), id@) ==> (r matches Err(SessionError::UnknownInstance(
                x,
            )) && x@ == id@) && final(self).spec_active_id() == old(self).spec_active_id(),
    {
        match find_index(&self.data.instances, id) {
            None => Err(SessionError::UnknownInstance(string_of(&chars_of(id)))),
            Some(_) => {
                self.data.active_id = Some(string_of(&chars_of(id)));
                Ok(())
            },
        }
    }

    /// Replaces the instance with the same id (the first one), or appends it,
    /// and makes it active.
    pub fn upsert(&mut self, instance: Instance)
        ensures
            final(self).spec_path() == old(self).spec_path(),
            final(self).spec_active_id() == Some(instance.id),
            has_id(old(self).spec_instances(), instance.id@) ==> exists|i: int|
                first_with_id(old(self).spec_instances(), instance.id@, i)
                    && final(self).spec_instances() == old(self).spec_instances().update(i, instance),
            !has_id(old(self).spec_instances(), instance.id@) ==> final(self).spec_instances()
                == old(self).spec_instances().push(instance),
    {
        let id = instance.id.clone();
        match find_index(&self.data.instances, instance.id.as_str()) {
            Some(i) => {
                self.data.instances.set(i, instance);
            },
            None => {
                self.data.instances.push(instance);
            },
        }
        self.data.active_id = Some(id);
    }

    /// Removes every instance with this id; when it was the active one, the
    /// first remaining instance (if any) becomes active.
    pub fn remove(&mut self, id: &str)
        ensures
            final(self).spec_path() == old(self).spec_path(),
            final(self).spec_instances() == old(self).spec_instances().filter(not_id(id@)),
            match old(self).spec_active_id() {
                Some(a) if a@ == id@ => if final(self).spec_instances().len() == 0 {
                    final(self).spec_active_id() is None
                } else {
                    final(self).spec_active_id() == Some(final(self).spec_instances()[0].id)
                },
                _ => final(self).spec_active_id() == old(self).spec_active_id(),
            },
    {
        let idv = chars_of(id);
        let ghost old_s = self.data.instances@;
        let mut kept: Vec<Instance> = Vec::new();
        let mut i: usize = 0;
        while i < self.data.instances.len()
            invariant
                i <= self.data.instances.len(),
                self.data.instances@ == old_s,
                idv@ == id@,
                kept@ == old_s.take(i as int).filter(not_id(id@)),
            decreases self.data.instances.len() - i,
        {
            let x = &self.data.instances[i];
            let same = crate::text::chars_eq(&chars_of(x.id.as_str()), &idv);
            proof {
                reveal_with_fuel(Seq::<_>::filter, 1);
                assert(old_s.take(i + 1).drop_last() =~= old_s.take(i as int));
            }
            if !same {
                kept.push(x.clone());
            }
            i += 1;
        }
        assert(old_s.take(old_s.len() as int) =~= old_s);
        self.data.instances = kept;
        let was_active = match &self.data.active_id {
            Some(a) => crate::text::chars_eq(&chars_of(a.as_str()), &idv),
            None => false,
        };
        if was_active {
            self.data.active_id = if self.data.instances.len() > 0 {
                Some(self.data.instances[0].id.clone())
            } else {
                None
            };
        }
    }

    /// Renames the instance with this id and sets its API URL (normalised);
    /// refused when there is none.
    pub fn update_details(&mut self, id: &str, name: &str, api_url: &str) -> (r: Result<
        (),
        SessionError,
    >)
        ensures
            final(self).spec_path() == old(self).spec_path(),
            final(self).spec_active_id() == old(self).spec_active_id(),
            has_id(old(self).spec_instances(), id@) ==> r is Ok && exists|i: int|
                first_with_id(old(self).spec_instances(), id@, i) && {
                    let o = old(self).spec_instances()[i];
                    let n = final(self).spec_instances()[i];
                    &&& final(self).spec_instances().len() == old(self).spec_instances().len()
                    &&& forall|j: int|
                        0 <= j < old(self).spec_instances().len() && j != i
                            ==> final(self).spec_instances()[j] == old(self).spec_instances()[j]
                    &&& n.id == o.id
                    &&& n.token == o.token
                    &&& n.device_id == o.device_id
                    &&& n.name@ == name@
                    &&& n.api_url@ == normalized_api_url(api_url@)
                },
            !has_id(old(self).spec_instances(), id@) ==> (r matches Err(SessionError::UnknownInstance(
                x,
            )) && x@ == id@) && final(self).spec_instances() == old(self).spec_instances(),
    {
        match find_index(&self.data.instances, id) {
            None => Err(SessionError::UnknownInstance(string_of(&chars_of(id)))),
            Some(i) => {
                let o = &self.data.instances[i];
                let n = Instance {
                    id: o.id.clone(),
                    name: string_of(&chars_of(name)),
                    api_url: normalize_api_url(api_url),
                    token: o.token.clone(),
                    device_id: o.device_id.clone(),
                };
                self.data.instances.set(i, n);
                Ok(())
            },
        }
    }

    /// The device id of the instance with this id, if there is one.
    pub fn device_id_for(&self, id: &str) -> (r: Option<String>)
        ensures
            match r {
                Some(d) => exists|i: int|
                    first_with_id(self.spec_instances(), id@, i) && d == self.spec_instances()[i].device_id,
                None => !has_id(self.spec_instances(), id@),
            },
    {
        match find_index(&self.data.instances, id) {
            Some(i) => {
                let d = self.data.instances[i].device_id.clone();
                assert(first_with_id(self.spec_instances(), id@, i as int)
                    && d == self.spec_instances()[i as int].device_id);
                Some(d)
            },
            None => None,
        }
    }

    /// Replaces the credentials of the instance `id` by a token (kept under
    /// the same id and device id; a new device id when the instance is not
    /// known yet) and makes it active.
    pub fn update_via_token(&mut self, id: &str, name: &str, api_url: &str, token: &str) -> (r: Instance)
        ensures
            r.id@ == id@,
            r.name@ == name@,
            r.api_url@ == normalized_api_url(api_url@),
            r.token@ == trim(token@),
            has_id(old(self).spec_instances(), id@) ==> exists|i: int|
                first_with_id(old(self).spec_instances(), id@, i) && r.device_id == old(
                    self,
                ).spec_instances()[i].device_id,
            final(self).spec_active_id() == Some(r.id),
            final(self).spec_path() == old(self).spec_path(),
            has_id(old(self).spec_instances(), id@) ==> exists|i: int|
                first_with_id(old(self).spec_instances(), id@, i)
                    && final(self).spec_instances() == old(self).spec_instances().update(i, r),
            !has_id(old(self).spec_instances(), id@) ==> final(self).spec_instances()
                == old(self).spec_instances().push(r),
    {
        let device_id = match self.device_id_for(id) {
            Some(d) => d,
            None => new_uuid_string(),
        };
        let instance = Instance {
            id: string_of(&chars_of(id)),
            name: string_of(&chars_of(name)),
            api_url: normalize_api_url(api_url),
            token: string_of(&trim_chars(&chars_of(token))),
            device_id,
        };
        let r = instance.clone();
        self.upsert(instance);
        r
    }

    /// The token request of a login for the instance `id` (none: a new
    /// instance) named `name` at `api_url`: the URL normalised, the device id
    /// of the known instance `id` or else a fresh one, and the client name
    /// `panda-desktop-` followed by the name.
    pub fn login_request(&self, id: Option<&str>, name: &str, api_url: &str) -> (r: LoginRequest)
        ensures
            r.api_url@ == normalized_api_url(api_url@),
            r.client_name@ == "panda-desktop-"@ + name@,
            match id {
                Some(x) => if has_id(self.spec_instances(), x@) {
                    exists|k: int|
                        first_with_id(self.spec_instances(), x@, k) && r.device_id == self.spec_instances()[k].device_id
                } else {
                    r.device_id@.len() == 36
                },
                None => r.device_id@.len() == 36,
            },
    {
        let device_id = match id {
            Some(x) => match self.device_id_for(x) {
                Some(d) => d,
                None => new_uuid_string(),
            },
            None => new_uuid_string(),
        };
        LoginRequest {
            api_url: normalize_api_url(api_url),
            device_id,
            client_name: string_of(&concat(&chars_of("panda-desktop-"), &chars_of(name))),
        }
    }

    /// Takes in the token that the login `request` minted: the instance `id`
    /// (none: a new instance under a fresh id) named `name`, with the
    /// request's URL and device id and the token as given, replaces the
    /// instance with that id or is appended, and becomes active.
    pub fn finish_login(&mut self, id: Option<&str>, name: &str, request: LoginRequest, token: String) -> (r:
        Instance)
        ensures
            match id {
                Some(x) => r.id@ == x@,
                None => r.id@.len() == 36,
            },
            r.name@ == name@,
            r.api_url == request.api_url,
            r.device_id == request.device_id,
            r.token == token,
            final(self).spec_active_id() == Some(r.id),
            final(self).spec_path() == old(self).spec_path(),
            has_id(old(self).spec_instances(), r.id@) ==> exists|i: int|
                first_with_id(old(self).spec_instances(), r.id@, i)
                    && final(self).spec_instances() == old(self).spec_instances().update(i, r),
            !has_id(old(self).spec_instances(), r.id@) ==> final(self).spec_instances()
                == old(self).spec_instances().push(r),
    {
        let id = match id {
            Some(x) => string_of(&chars_of(x)),
            None => new_uuid_string(),
        };
        let LoginRequest { api_url, device_id, client_name: _ } = request;
        let instance = Instance { id, name: string_of(&chars_of(name)), api_url, token, device_id };
        let r = instance.clone();
        self.upsert(instance);
        r
    }

    /// Adds an instance for an existing API token, under a fresh id and
    /// device id, and makes it active.
    pub fn add_via_token(&mut self, name: &str, api_url: &str, token: &str) -> (r: Instance)
        ensures
            r.name@ == name@,
            r.api_url@ == normalized_api_url(api_url@),
            r.token@ == trim(token@),
            final(self).spec_active_id() == Some(r.id),
            final(self).spec_path() == old(self).spec_path(),
            has_id(old(self).spec_instances(), r.id@) ==> exists|i: int|
                first_with_id(old(self).spec_instances(), r.id@, i)
                    && final(self).spec_instances() == old(self).spec_instances().update(i, r),
            !has_id(old(self).spec_instances(), r.id@) ==> final(self).spec_instances()
                == old(self).spec_instances().push(r),
    {
        let instance = Instance {
            id: new_uuid_string(),
            name: string_of(&chars_of(name)),
            api_url: normalize_api_url(api_url),
            token: string_of(&trim_chars(&chars_of(token))),
            device_id: new_uuid_string(),
        };
        let r = instance.clone();
        self.upsert(instance);
        r
    }
}

/// What a login sends to mint a token: the normalised API URL, the device
/// id the token is for, and the client name it is minted under.
#[derive(Debug)]
pub struct LoginRequest {
    pub api_url: String,
    pub device_id: String,
    pub client_name: String,
}

/// An empty session handle kept for older callers.
#[derive(Debug)]
pub struct Session;

impl Default for Session {
    fn default() -> (r: Self) {
        Session
    }
}

} // verus!
