//! Isolated environments: which local environment creation may proceed,
//! the build definition of a container image, the names of local images,
//! and the steps of a command run in an ephemeral container.
use vstd::prelude::*;
use vstd::string::{StrSliceExecFns, StringExecFns};
use crate::text::{has_suffix, str_contains_char, str_eq, str_has_suffix};

verus! {

/// Where a local environment stands.
#[derive(Clone, Copy, Debug, PartialEq, Eq, Structural)]
pub enum EnvState {
    /// One request is creating it; others wait for that result.
    Creating,
    /// It exists and can be used.
    Ready,
}

/// What the caller of a request must do.
#[derive(Clone, Copy, Debug, PartialEq, Eq, Structural)]
pub enum EnvAction {
    /// Create the environment, then report with `finish`.
    Create,
    /// Another request is creating it: wait for its result.
    Wait,
    /// Use the environment as it is.
    UseExisting,
}

pub type EnvModel = Map<Seq<char>, EnvState>;

/// The answer to a request for the environment at `root`; `on_disk` tells
/// whether a directory is already there.
pub open spec fn request_action(m: EnvModel, root: Seq<char>, on_disk: bool) -> EnvAction {
    if m.contains_key(root) {
        if m[root] == EnvState::Creating {
            EnvAction::Wait
        } else {
            EnvAction::UseExisting
        }
    } else if on_disk {
        EnvAction::UseExisting
    } else {
        EnvAction::Create
    }
}

pub open spec fn after_request(m: EnvModel, root: Seq<char>, on_disk: bool) -> EnvModel {
    if m.contains_key(root) {
        m
    } else if on_disk {
        m.insert(root, EnvState::Ready)
    } else {
        m.insert(root, EnvState::Creating)
    }
}

/// After a creation ends: ready on success; forgotten on failure, so that a
/// later request tries again.
pub open spec fn after_finish(m: EnvModel, root: Seq<char>, ok: bool) -> EnvModel {
    if m.contains_key(root) && m[root] == EnvState::Creating {
        if ok {
            m.insert(root, EnvState::Ready)
        } else {
            m.remove(root)
        }
    } else {
        m
    }
}

/// Runs the requests for `root` whose on-disk observations are `seen`, in
/// order: the state afterwards and how many of them were told to create.
pub open spec fn run_requests(m: EnvModel, root: Seq<char>, seen: Seq<bool>) -> (EnvModel, nat)
    decreases seen.len(),
{
    if seen.len() == 0 {
        (m, 0)
    } else {
        let (m1, c) = run_requests(m, root, seen.drop_last());
        (
            after_request(m1, root, seen.last()),
            c + if request_action(m1, root, seen.last()) == EnvAction::Create { 1nat } else { 0nat },
        )
    }
}

/// The local environments that this process has seen or is creating.
pub struct EnvironmentRegistry {
    roots: Vec<String>,
    states: Vec<EnvState>,
    model: Ghost<EnvModel>,
}

impl View for EnvironmentRegistry {
    type V = EnvModel;

    closed spec fn view(&self) -> EnvModel {
        self.model@
    }
}

impl EnvironmentRegistry {
    pub closed spec fn wf(&self) -> bool {
        &&& self.roots@.len() == self.states@.len()
        &&& forall|i: int|
            0 <= i < self.roots@.len() ==> #[trigger] self.model@.contains_key(self.roots@[i]@)
                && self.model@[self.roots@[i]@] == self.states@[i]
        &&& forall|k: Seq<char>| #[trigger]
            self.model@.contains_key(k) ==> exists|i: int| 0 <= i < self.roots@.len() && (#[trigger] self.roots@[i])@ == k
        &&& forall|i: int, j: int|
            0 <= i < self.roots@.len() && 0 <= j < self.roots@.len() && i != j ==> (#[trigger] self.roots@[i])@
                != (#[trigger] self.roots@[j])@
    }

    pub fn new() -> (r: Self)
        ensures
            r.wf(),
            r@ == Map::<Seq<char>, EnvState>::empty(),
    {
        EnvironmentRegistry { roots: Vec::new(), states: Vec::new(), model: Ghost(Map::empty()) }
    }

    fn position(&self, root: &str) -> (r: Option<usize>)
        requires
            self.wf(),
        ensures
            match r {
                Some(i) => i < self.roots@.len() && self.roots@[i as int]@ == root@,
                None => !self@.contains_key(root@),
            },
    {
        let mut i: usize = 0;
        while i < self.roots.len()
            invariant
                self.wf(),
                0 <= i <= self.roots@.len(),
                forall|j: int| 0 <= j < i ==> (#[trigger] self.roots@[j])@ != root@,
            decreases self.roots@.len() - i,
        {
            if str_eq(self.roots[i].as_str(), root) {
                return Some(i);
            }
            i = i + 1;
        }
        None
    }

    /// A request for the local environment at `root`. At most one request
    /// for a root is told to create it; the others wait or use it.
    pub fn request(&mut self, root: &str, on_disk: bool) -> (r: EnvAction)
        requires
            old(self).wf(),
        ensures
            final(self).wf(),
            r == request_action(old(self)@, root@, on_disk),
            final(self)@ == after_request(old(self)@, root@, on_disk),
    {
        match self.position(root) {
            Some(i) => {
                assert(self.model@.contains_key(self.roots@[i as int]@));
                if self.states[i] == EnvState::Creating {
                    EnvAction::Wait
                } else {
                    EnvAction::UseExisting
                }
            },
            None => {
                let st = if on_disk { EnvState::Ready } else { EnvState::Creating };
                self.insert_new(root, st);
                if on_disk {
                    EnvAction::UseExisting
                } else {
                    EnvAction::Create
                }
            },
        }
    }

    fn insert_new(&mut self, root: &str, st: EnvState)
        requires
            old(self).wf(),
            !old(self)@.contains_key(root@),
        ensures
            final(self).wf(),
            final(self)@ == old(self)@.insert(root@, st),
    {
        self.roots.push(String::from_str(root));
        self.states.push(st);
        self.model = Ghost(self.model@.insert(root@, st));
        assert forall|k: Seq<char>| #[trigger] self.model@.contains_key(k) implies exists|i: int|
            0 <= i < self.roots@.len() && (#[trigger] self.roots@[i])@ == k by {
            if k == root@ {
                assert(self.roots@[self.roots@.len() - 1]@ == k);
            } else {
                assert(old(self).model@.contains_key(k));
                let j = choose|j: int| 0 <= j < old(self).roots@.len() && (#[trigger] old(self).roots@[j])@ == k;
                assert(self.roots@[j]@ == k);
            }
        }
        assert forall|j: int| 0 <= j < old(self).roots@.len() implies (#[trigger] self.roots@[j])@ != root@ by {
            assert(old(self).model@.contains_key(old(self).roots@[j]@));
        }
    }

    /// Reports the end of a creation of `root`: on success it is ready; on
    /// failure it is forgotten, so that a later request creates it again.
    pub fn finish(&mut self, root: &str, ok: bool)
        requires
            old(self).wf(),
        ensures
            final(self).wf(),
            final(self)@ == after_finish(old(self)@, root@, ok),
    {
        match self.position(root) {
            Some(i) => {
                assert(self.model@.contains_key(self.roots@[i as int]@));
                if self.states[i] == EnvState::Creating {
                    if ok {
                        self.states.set(i, EnvState::Ready);
                        self.model = Ghost(self.model@.insert(root@, EnvState::Ready));
                        assert forall|k: Seq<char>| #[trigger] self.model@.contains_key(k) implies exists|j: int|
                            0 <= j < self.roots@.len() && (#[trigger] self.roots@[j])@ == k by {
                            assert(old(self).model@.contains_key(k));
                            let j = choose|j: int|
                                0 <= j < old(self).roots@.len() && (#[trigger] old(self).roots@[j])@ == k;
                            assert(self.roots@[j]@ == k);
                        }
                    } else {
                        let ghost old_roots = self.roots@;
                        let ghost old_states = self.states@;
                        self.roots.remove(i);
                        self.states.remove(i);
                        self.model = Ghost(self.model@.remove(root@));
                        assert forall|j: int| 0 <= j < self.roots@.len() implies #[trigger] self.model@.contains_key(
                            self.roots@[j]@,
                        ) && self.model@[self.roots@[j]@] == self.states@[j] by {
                            let j2 = if j < i { j } else { j + 1 };
                            assert(self.roots@[j] == old_roots[j2]);
                            assert(self.states@[j] == old_states[j2]);
                            assert(old_roots[j2]@ != old_roots[i as int]@);
                            assert(old(self).model@.contains_key(old_roots[j2]@));
                        }
                        assert forall|k: Seq<char>| #[trigger] self.model@.contains_key(k) implies exists|j: int|
                            0 <= j < self.roots@.len() && (#[trigger] self.roots@[j])@ == k by {
                            let j = choose|j: int| 0 <= j < old_roots.len() && (#[trigger] old_roots[j])@ == k;
                            if j < i {
                                assert(self.roots@[j]@ == k);
                            } else {
                                assert(j != i);
                                assert(self.roots@[j - 1]@ == k);
                            }
                        }
                        assert forall|a: int, b: int|
                            0 <= a < self.roots@.len() && 0 <= b < self.roots@.len() && a != b implies (#[trigger] self.roots@[a])@
                            != (#[trigger] self.roots@[b])@ by {
                            let a2 = if a < i { a } else { a + 1 };
                            let b2 = if b < i { b } else { b + 1 };
                            assert(self.roots@[a] == old_roots[a2]);
                            assert(self.roots@[b] == old_roots[b2]);
                        }
                    }
                }
            },
            None => {},
        }
    }
}

/// However many requests for one root arrive before any of them finishes,
/// at most one is told to create it; when nothing was known of the root and
/// the first request found no directory there, exactly one is.
pub proof fn lemma_single_creation(m: EnvModel, root: Seq<char>, seen: Seq<bool>)
    ensures
        run_requests(m, root, seen).1 <= 1,
        !m.contains_key(root) && seen.len() > 0 && !seen[0] ==> run_requests(m, root, seen).1 == 1,
        m.contains_key(root) ==> run_requests(m, root, seen).1 == 0,
    decreases seen.len(),
{
    lemma_run_requests_shape(m, root, seen);
}

proof fn lemma_run_requests_shape(m: EnvModel, root: Seq<char>, seen: Seq<bool>)
    ensures
        ({
            let (m1, c) = run_requests(m, root, seen);
            &&& c <= 1
            &&& c == 1 ==> m1.contains_key(root) && m1[root] == EnvState::Creating
            &&& seen.len() > 0 ==> m1.contains_key(root)
            &&& !m.contains_key(root) ==> m1 == m || seen.len() > 0
            &&& m.contains_key(root) ==> c == 0
            &&& !m.contains_key(root) && seen.len() > 0 && !seen[0] ==> c == 1
        }),
    decreases seen.len(),
{
    if seen.len() > 0 {
        let d = seen.drop_last();
        lemma_run_requests_shape(m, root, d);
        if d.len() > 0 {
            assert(d[0] == seen[0]);
        }
    }
}

/// The build definition of an image on `base`; with `requirements`, the
/// named file is copied in and installed from.
pub open spec fn dockerfile_of(base: Seq<char>, requirements: Option<Seq<char>>) -> Seq<char> {
    "FROM "@ + base + "\nWORKDIR /app\nRUN pip install --upgrade pip\n"@ + match requirements {
        Some(r) => "COPY "@ + r + " /app/requirements.txt\nRUN pip install -r requirements.txt\n"@,
        None => Seq::empty(),
    } + "CMD [\"python\"]\n"@
}

/// Writes the build definition of an image on `base_image`; `requirements`
/// names a requirements file that exists.
pub fn dockerfile_content(base_image: &str, requirements: Option<&str>) -> (r: String)
    ensures
        r@ == dockerfile_of(
            base_image@,
            match requirements {
                Some(q) => Some(q@),
                None => None,
            },
        ),
{
    let mut d = String::from_str("FROM ");
    d.append(base_image);
    d.append("\nWORKDIR /app\nRUN pip install --upgrade pip\n");
    let ghost head = d@;
    match requirements {
        Some(q) => {
            d.append("COPY ");
            d.append(q);
            d.append(" /app/requirements.txt\nRUN pip install -r requirements.txt\n");
            assert(d@ =~= head + ("COPY "@ + q@ + " /app/requirements.txt\nRUN pip install -r requirements.txt\n"@));
        },
        None => {
            assert(d@ =~= head + Seq::<char>::empty());
        },
    }
    d.append("CMD [\"python\"]\n");
    d
}

/// The environment name that an image tag stands for: an untagged name as
/// it is, a `:latest` tag without that suffix, and no name for other tags.
pub open spec fn env_name_of(tag: Seq<char>) -> Option<Seq<char>> {
    if !tag.contains(':') {
        Some(tag)
    } else if has_suffix(tag, ":latest"@) {
        Some(tag.subrange(0, tag.len() - 7))
    } else {
        None
    }
}

/// The environment names of a list of image tags, in order.
pub open spec fn env_names_of(tags: Seq<Seq<char>>) -> Seq<Seq<char>>
    decreases tags.len(),
{
    if tags.len() == 0 {
        Seq::empty()
    } else {
        match env_name_of(tags.last()) {
            Some(n) => env_names_of(tags.drop_last()).push(n),
            None => env_names_of(tags.drop_last()),
        }
    }
}

/// The environment names of the image tags known to the container daemon.
pub fn environment_names(tags: &Vec<String>) -> (r: Vec<String>)
    ensures
        r@.map_values(|s: String| s@) == env_names_of(tags@.map_values(|s: String| s@)),
{
    let ghost tv = tags@.map_values(|s: String| s@);
    proof {
        reveal_strlit(":latest");
    }
    let mut out: Vec<String> = Vec::new();
    let mut i: usize = 0;
    while i < tags.len()
        invariant
            0 <= i <= tags@.len(),
            tv == tags@.map_values(|s: String| s@),
            out@.map_values(|s: String| s@) == env_names_of(tv.subrange(0, i as int)),
            ":latest"@.len() == 7,
        decreases tags@.len() - i,
    {
        proof {
            assert(tv.subrange(0, i + 1).drop_last() =~= tv.subrange(0, i as int));
            assert(tv.subrange(0, i + 1).last() == tags@[i as int]@);
        }
        let t = tags[i].as_str();
        let ghost prev = out@.map_values(|s: String| s@);
        if !str_contains_char(t, ':') {
            out.push(String::from_str(t));
            assert(out@.map_values(|s: String| s@) =~= prev.push(t@));
        } else if str_has_suffix(t, ":latest") {
            let n = t.unicode_len();
            let stem = t.substring_char(0, n - 7);
            out.push(String::from_str(stem));
            assert(out@.map_values(|s: String| s@) =~= prev.push(t@.subrange(0, t@.len() - 7)));
        }
        i = i + 1;
    }
    assert(tv.subrange(0, tags@.len() as int) =~= tv);
    out
}

/// The steps of a command run in an ephemeral container.
#[derive(Clone, Copy, Debug, PartialEq, Eq, Structural)]
pub enum ExecPhase {
    Creating,
    Starting,
    Streaming,
    Removing,
    Done,
}

/// What the caller does next for a container run.
#[derive(Clone, Copy, Debug, PartialEq, Eq, Structural)]
pub enum ExecAction {
    StartContainer,
    StreamLogs,
    RemoveContainer,
    /// The run is over; `ok` tells whether every step succeeded.
    Finish { ok: bool },
}

/// A command run in an ephemeral container: created, started, its logs
/// streamed, and removed, the removal also after a failed step.
#[derive(Clone, Copy, Debug, PartialEq, Eq, Structural)]
pub struct ContainerRun {
    pub phase: ExecPhase,
    pub failed: bool,
}

/// The next phase, and the action to perform, once the current step ends
/// (`ok`: it succeeded).
pub open spec fn exec_next(run: ContainerRun, ok: bool) -> (ContainerRun, ExecAction) {
    match run.phase {
        ExecPhase::Creating => if ok {
            (ContainerRun { phase: ExecPhase::Starting, failed: false }, ExecAction::StartContainer)
        } else {
            (ContainerRun { phase: ExecPhase::Done, failed: true }, ExecAction::Finish { ok: false })
        },
        ExecPhase::Starting => if ok {
            (ContainerRun { phase: ExecPhase::Streaming, failed: run.failed }, ExecAction::StreamLogs)
        } else {
            (ContainerRun { phase: ExecPhase::Removing, failed: true }, ExecAction::RemoveContainer)
        },
        ExecPhase::Streaming => (
            ContainerRun { phase: ExecPhase::Removing, failed: run.failed || !ok },
            ExecAction::RemoveContainer,
        ),
        ExecPhase::Removing => (
            ContainerRun { phase: ExecPhase::Done, failed: run.failed || !ok },
            ExecAction::Finish { ok: !run.failed && ok },
        ),
        ExecPhase::Done => (run, ExecAction::Finish { ok: !run.failed }),
    }
}

impl ContainerRun {
    /// A run whose first step, creating the container, is under way.
    pub fn new() -> (r: Self)
        ensures
            r.phase == ExecPhase::Creating,
            !r.failed,
    {
        ContainerRun { phase: ExecPhase::Creating, failed: false }
    }

    /// Reports the end of the current step and returns the next action.
    pub fn step(&mut self, ok: bool) -> (r: ExecAction)
        ensures
            (*final(self), r) == exec_next(*old(self), ok),
    {
        let (next, action) = match self.phase {
            ExecPhase::Creating => if ok {
                (ContainerRun { phase: ExecPhase::Starting, failed: false }, ExecAction::StartContainer)
            } else {
                (ContainerRun { phase: ExecPhase::Done, failed: true }, ExecAction::Finish { ok: false })
            },
            ExecPhase::Starting => if ok {
                (ContainerRun { phase: ExecPhase::Streaming, failed: self.failed }, ExecAction::StreamLogs)
            } else {
                (ContainerRun { phase: ExecPhase::Removing, failed: true }, ExecAction::RemoveContainer)
            },
            ExecPhase::Streaming => (
                ContainerRun { phase: ExecPhase::Removing, failed: self.failed || !ok },
                ExecAction::RemoveContainer,
            ),
            ExecPhase::Removing => (
                ContainerRun { phase: ExecPhase::Done, failed: self.failed || !ok },
                ExecAction::Finish { ok: !self.failed && ok },
            ),
            ExecPhase::Done => (*self, ExecAction::Finish { ok: !self.failed }),
        };
        *self = next;
        action
    }
}

/// Once the container exists, no step ends the run before its removal: a
/// started or streaming run goes on, or goes to removal, whatever happened.
pub proof fn lemma_created_container_is_removed(run: ContainerRun, ok: bool)
    requires
        run.phase == ExecPhase::Starting || run.phase == ExecPhase::Streaming,
    ensures
        !(exec_next(run, ok).1 is Finish),
        !ok ==> exec_next(run, ok).1 == ExecAction::RemoveContainer,
        exec_next(run, ok).1 == ExecAction::RemoveContainer ==> exec_next(run, ok).0.phase == ExecPhase::Removing,
{
}

} // verus!
