//! Writing sessions: when a document was worked on, from which device, and
//! how many words it had before and after.

use vstd::prelude::*;
use vstd::seq_lib::*;
use crate::error::AppError;
use crate::strings::{clone_opt_string, opt_str_view, opt_view};

verus! {

/// One sitting at a document. Times are milliseconds since the Unix epoch.
#[derive(Debug)]
pub struct WritingSession {
    pub id: String,
    pub document_id: String,
    pub device_name: Option<String>,
    pub started_at: i64,
    pub ended_at: Option<i64>,
    pub word_count_start: i64,
    pub word_count_end: Option<i64>,
}

/// A session as plain values.
pub struct WritingSessionView {
    pub id: Seq<char>,
    pub document_id: Seq<char>,
    pub device_name: Option<Seq<char>>,
    pub started_at: i64,
    pub ended_at: Option<i64>,
    pub word_count_start: i64,
    pub word_count_end: Option<i64>,
}

impl View for WritingSession {
    type V = WritingSessionView;

    open spec fn view(&self) -> WritingSessionView {
        WritingSessionView {
            id: self.id@,
            document_id: self.document_id@,
            device_name: opt_view(self.device_name),
            started_at: self.started_at,
            ended_at: self.ended_at,
            word_count_start: self.word_count_start,
            word_count_end: self.word_count_end,
        }
    }
}

impl Clone for WritingSession {
    fn clone(&self) -> (r: Self)
        ensures
            r == *self,
    {
        WritingSession {
            id: self.id.clone(),
            document_id: self.document_id.clone(),
            device_name: clone_opt_string(&self.device_name),
            started_at: self.started_at,
            ended_at: self.ended_at,
            word_count_start: self.word_count_start,
            word_count_end: self.word_count_end,
        }
    }
}

/// What a caller supplies to start a session.
#[derive(Debug)]
pub struct CreateSessionRequest {
    pub device_name: Option<String>,
    /// The words that the document has at the start; none counts as 0.
    pub word_count_start: Option<i64>,
}

/// What a caller supplies to end a session.
#[derive(Debug)]
pub struct EndSessionRequest {
    pub word_count_end: Option<i64>,
}

/// Tells whether a session with the id `id` exists.
pub open spec fn has_session(sessions: Seq<WritingSession>, id: Seq<char>) -> bool {
    exists|i: int| 0 <= i < sessions.len() && (#[trigger] sessions[i]).id@ == id
}

/// The place of the session with the id `id`.
pub open spec fn session_place(sessions: Seq<WritingSession>, id: Seq<char>) -> int {
    choose|i: int| 0 <= i < sessions.len() && (#[trigger] sessions[i]).id@ == id
}

/// What every session store satisfies: an id names one session.
pub open spec fn well_formed(sessions: Seq<WritingSession>) -> bool {
    forall|i: int, j: int|
        0 <= i < j < sessions.len() ==> (#[trigger] sessions[i]).id@ != (#[trigger] sessions[j]).id@
}

/// The order in which sessions are listed: the latest start first.
pub open spec fn sessions_sorted(sessions: Seq<WritingSession>) -> bool {
    forall|i: int, j: int|
        0 <= i < j < sessions.len() ==> (#[trigger] sessions[i]).started_at >= (
        #[trigger] sessions[j]).started_at
}

/// The sessions of a document among the first `n`.
pub open spec fn sessions_of(sessions: Seq<WritingSession>, document_id: Seq<char>, n: int) -> Seq<
    WritingSession,
>
    decreases n,
{
    if n <= 0 {
        Seq::empty()
    } else if sessions[n - 1].document_id@ == document_id {
        sessions_of(sessions, document_id, n - 1).push(sessions[n - 1])
    } else {
        sessions_of(sessions, document_id, n - 1)
    }
}

/// A session that was just started.
pub open spec fn new_session_view(
    id: Seq<char>,
    document_id: Seq<char>,
    device_name: Option<Seq<char>>,
    word_count_start: i64,
    now: i64,
) -> WritingSessionView {
    WritingSessionView {
        id,
        document_id,
        device_name,
        started_at: now,
        ended_at: None,
        word_count_start,
        word_count_end: None,
    }
}

/// The words that a session starts with: those of the request, or 0.
pub open spec fn start_count(req: CreateSessionRequest) -> i64 {
    match req.word_count_start {
        Some(n) => n,
        None => 0,
    }
}

/// All writing sessions, in the order of their start.
pub struct SessionStore {
    sessions: Vec<WritingSession>,
}

impl View for SessionStore {
    type V = Seq<WritingSession>;

    closed spec fn view(&self) -> Seq<WritingSession> {
        self.sessions@
    }
}

impl SessionStore {
    /// The store's invariant.
    pub open spec fn wf(&self) -> bool {
        well_formed(self@)
    }

    /// An empty store.
    pub fn new() -> (s: Self)
        ensures
            s.wf(),
            s@.len() == 0,
    {
        SessionStore { sessions: Vec::new() }
    }

    /// All sessions, in the order of their creation.
    pub fn all_sessions(&self) -> (r: &Vec<WritingSession>)
        ensures
            r@ == self@,
    {
        &self.sessions
    }

    /// Where the session with this id stands.
    fn find(&self, id: &str) -> (r: Option<usize>)
        requires
            self.wf(),
        ensures
            r is Some <==> has_session(self@, id@),
            r matches Some(i) ==> i < self@.len() && self@[i as int].id@ == id@ && session_place(
                self@,
                id@,
            ) == i,
    {
        let mut i: usize = 0;
        while i < self.sessions.len()
            invariant
                i <= self.sessions.len(),
                well_formed(self@),
                forall|j: int| 0 <= j < i ==> (#[trigger] self.sessions@[j]).id@ != id@,
            decreases self.sessions.len() - i,
        {
            if self.sessions[i].id.as_str().eq(id) {
                proof {
                    let all = self@;
                    let k = session_place(all, id@);
                    assert(all[i as int].id@ == id@);
                    if k < i {
                        assert(all[k].id@ != all[i as int].id@);
                    } else if i < k {
                        assert(all[i as int].id@ != all[k].id@);
                    }
                }
                return Some(i);
            }
            i = i + 1;
        }
        None
    }
}

/// Starts a session at a document at `now`. Fails, and leaves the store as
/// it was, when the id is taken.
pub fn create_session(
    store: &mut SessionStore,
    id: &str,
    document_id: &str,
    device_name: Option<&str>,
    word_count_start: i64,
    now: i64,
) -> (r: Result<WritingSession, AppError>)
    requires
        old(store).wf(),
    ensures
        final(store).wf(),
        r is Ok <==> !has_session(old(store)@, id@),
        r matches Err(e) ==> e is Database && final(store)@ == old(store)@,
        r matches Ok(s) ==> {
            &&& s@ == new_session_view(
                id@,
                document_id@,
                opt_str_view(device_name),
                word_count_start,
                now,
            )
            &&& final(store)@ == old(store)@.push(s)
        },
{
    if store.find(id).is_some() {
        return Err(AppError::Database("session id already exists".to_owned()));
    }
    let ghost before = store@;
    let session = WritingSession {
        id: id.to_owned(),
        document_id: document_id.to_owned(),
        device_name: match device_name {
            Some(d) => Some(d.to_owned()),
            None => None,
        },
        started_at: now,
        ended_at: None,
        word_count_start,
        word_count_end: None,
    };
    let created = session.clone();
    store.sessions.push(session);
    proof {
        let after = store@;
        let n = before.len() as int;
        assert forall|a: int, b: int| 0 <= a < b < after.len() implies (#[trigger] after[a]).id@ != (
        #[trigger] after[b]).id@ by {
            if b < n {
                assert(before[a].id@ != before[b].id@);
            } else {
                assert(before[a].id@ != id@);
            }
        }
    }
    Ok(created)
}

/// Starts a session as a request asks for it: with the words that it
/// names, or with none.
pub fn create_writing_session(
    store: &mut SessionStore,
    id: &str,
    document_id: &str,
    req: &CreateSessionRequest,
    now: i64,
) -> (r: Result<WritingSession, AppError>)
    requires
        old(store).wf(),
    ensures
        final(store).wf(),
        r is Ok <==> !has_session(old(store)@, id@),
        r matches Err(e) ==> e is Database && final(store)@ == old(store)@,
        r matches Ok(s) ==> {
            &&& s@ == new_session_view(
                id@,
                document_id@,
                opt_view(req.device_name),
                start_count(*req),
                now,
            )
            &&& final(store)@ == old(store)@.push(s)
        },
{
    let words: i64 = match req.word_count_start {
        Some(n) => n,
        None => 0,
    };
    let device: Option<&str> = match &req.device_name {
        Some(d) => Some(d.as_str()),
        None => None,
    };
    create_session(store, id, document_id, device, words, now)
}

/// Finds a session by its id.
pub fn get_session(store: &SessionStore, id: &str) -> (r: Option<WritingSession>)
    requires
        store.wf(),
    ensures
        r is Some <==> has_session(store@, id@),
        r matches Some(s) ==> s == store@[session_place(store@, id@)],
{
    match store.find(id) {
        Some(i) => Some(store.sessions[i].clone()),
        None => None,
    }
}

/// Ends a session at `now` with the words that the document has then, and
/// returns the session. Nothing changes when there is no such session.
pub fn end_session(store: &mut SessionStore, id: &str, word_count_end: Option<i64>, now: i64) -> (r:
    Option<WritingSession>)
    requires
        old(store).wf(),
    ensures
        final(store).wf(),
        r is Some <==> has_session(old(store)@, id@),
        r is None ==> final(store)@ == old(store)@,
        r matches Some(s) ==> {
            let i = session_place(old(store)@, id@);
            &&& s@ == (WritingSessionView { ended_at: Some(now), word_count_end, ..old(store)@[i]@ })
            &&& final(store)@ == old(store)@.update(i, s)
        },
{
    let i: usize = match store.find(id) {
        Some(i) => i,
        None => {
            return None;
        },
    };
    let ghost before = store@;
    let current = &store.sessions[i];
    let ended = WritingSession {
        id: current.id.clone(),
        document_id: current.document_id.clone(),
        device_name: clone_opt_string(&current.device_name),
        started_at: current.started_at,
        ended_at: Some(now),
        word_count_start: current.word_count_start,
        word_count_end,
    };
    let result = ended.clone();
    store.sessions.set(i, ended);
    proof {
        let after = store@;
        assert(after =~= before.update(i as int, result));
        assert forall|a: int, b: int| 0 <= a < b < after.len() implies (#[trigger] after[a]).id@ != (
        #[trigger] after[b]).id@ by {
            assert(before[a].id@ != before[b].id@);
        }
    }
    Some(result)
}

/// Lists the sessions of a document, the latest start first.
pub fn list_sessions_for_document(store: &SessionStore, document_id: &str) -> (r: Vec<WritingSession>)
    ensures
        sessions_sorted(r@),
        r@.to_multiset() == sessions_of(store@, document_id@, store@.len() as int).to_multiset(),
{
    let mut out: Vec<WritingSession> = Vec::new();
    let mut i: usize = 0;
    while i < store.sessions.len()
        invariant
            i <= store.sessions.len(),
            sessions_sorted(out@),
            out@.to_multiset() == sessions_of(store.sessions@, document_id@, i as int).to_multiset(),
        decreases store.sessions.len() - i,
    {
        if store.sessions[i].document_id.as_str().eq(document_id) {
            let s = store.sessions[i].clone();
            let mut pos: usize = out.len();
            while pos > 0 && out[pos - 1].started_at < s.started_at
                invariant
                    pos <= out.len(),
                    forall|k: int| pos <= k < out.len() ==> (#[trigger] out@[k]).started_at < s.started_at,
                decreases pos,
            {
                pos = pos - 1;
            }
            let ghost prev = out@;
            out.insert(pos, s);
            proof {
                to_multiset_insert(prev, pos as int, s);
                to_multiset_build(sessions_of(store.sessions@, document_id@, i as int), s);
                assert(out@ == prev.insert(pos as int, s));
                assert forall|a: int, b: int| 0 <= a < b < out@.len() implies (
                #[trigger] out@[a]).started_at >= (#[trigger] out@[b]).started_at by {
                    if b < pos {
                        assert(prev[a].started_at >= prev[b].started_at);
                    } else if b == pos {
                        assert(prev[pos - 1].started_at >= s.started_at);
                        if a < pos - 1 {
                            assert(prev[a].started_at >= prev[pos - 1].started_at);
                        }
                    } else if a == pos {
                        assert(prev[b - 1].started_at < s.started_at);
                    } else if a > pos {
                        assert(prev[a - 1].started_at >= prev[b - 1].started_at);
                    } else {
                        assert(prev[a].started_at >= prev[b - 1].started_at);
                    }
                }
            }
        }
        i = i + 1;
    }
    out
}

/// Takes in a session that was kept elsewhere, as it is. Fails, and leaves
/// the store as it was, when the id is taken.
pub fn load_session(store: &mut SessionStore, session: WritingSession) -> (r: Result<(), AppError>)
    requires
        old(store).wf(),
    ensures
        final(store).wf(),
        r is Ok <==> !has_session(old(store)@, session.id@),
        r matches Err(e) ==> e is Database && final(store)@ == old(store)@,
        r is Ok ==> final(store)@ == old(store)@.push(session),
{
    if store.find(session.id.as_str()).is_some() {
        return Err(AppError::Database("session id already exists".to_owned()));
    }
    let ghost before = store@;
    store.sessions.push(session);
    proof {
        let after = store@;
        let n = before.len() as int;
        assert forall|a: int, b: int| 0 <= a < b < after.len() implies (#[trigger] after[a]).id@ != (
        #[trigger] after[b]).id@ by {
            if b < n {
                assert(before[a].id@ != before[b].id@);
            } else {
                assert(before[a].id@ != session.id@);
            }
        }
    }
    Ok(())
}

} // verus!
