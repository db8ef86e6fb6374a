//! What the bot remembers while it runs.

use vstd::prelude::*;

verus! {

use crate::messages::OutgoingMessage;
use crate::search::{
    match_views, results_message, search_results_message, MatchView, QueryMatch, SearchSession,
};
use std::collections::{HashMap, HashSet};

broadcast use vstd::std_specs::hash::group_hash_axioms;

/// What the bot remembers: which updates it has seen, which chats owe it a text, and the results
/// of searches.
#[derive(Debug)]
pub struct TelegramRuntimeState {
    pub next_offset: Option<u32>,
    pub next_search_session_id: u64,
    pub awaiting_new_chats: HashSet<i64>,
    pub search_sessions: HashMap<u64, SearchSession>,
}

#[verifier::ext_equal]
pub struct StateView {
    pub next_offset: Option<u32>,
    pub next_session: u64,
    pub awaiting: Set<i64>,
    pub sessions: Map<u64, Seq<MatchView>>,
}

pub open spec fn session_views(sessions: Map<u64, SearchSession>) -> Map<u64, Seq<MatchView>> {
    sessions.map_values(|session: SearchSession| match_views(session.matches@))
}

impl View for TelegramRuntimeState {
    type V = StateView;

    open spec fn view(&self) -> StateView {
        StateView {
            next_offset: self.next_offset,
            next_session: self.next_search_session_id,
            awaiting: self.awaiting_new_chats@,
            sessions: session_views(self.search_sessions@),
        }
    }
}

impl StateView {
    pub open spec fn empty() -> StateView {
        StateView {
            next_offset: None,
            next_session: 0,
            awaiting: Set::empty(),
            sessions: Map::empty(),
        }
    }

    /// Every search has a number that was already given out.
    pub open spec fn wf(self) -> bool {
        forall|id: u64| #[trigger] self.sessions.contains_key(id) ==> id < self.next_session
    }

    /// With one more search, under the next number.
    pub open spec fn with_session(self, matches: Seq<MatchView>) -> StateView {
        StateView {
            next_session: (self.next_session + 1) as u64,
            sessions: self.sessions.insert(self.next_session, matches),
            ..self
        }
    }

    /// After an update was seen.
    pub open spec fn past(self, update_id: u32) -> StateView {
        StateView { next_offset: Some((update_id + 1) as u32), ..self }
    }

    pub open spec fn expecting(self, chat_id: i64) -> StateView {
        StateView { awaiting: self.awaiting.insert(chat_id), ..self }
    }

    pub open spec fn not_expecting(self, chat_id: i64) -> StateView {
        StateView { awaiting: self.awaiting.remove(chat_id), ..self }
    }
}

impl Default for TelegramRuntimeState {
    fn default() -> (r: Self)
        ensures
            r@ == StateView::empty(),
            r@.wf(),
    {
        let r = TelegramRuntimeState {
            next_offset: None,
            next_search_session_id: 0,
            awaiting_new_chats: HashSet::new(),
            search_sessions: HashMap::new(),
        };
        assert(r@ =~= StateView::empty());
        r
    }
}

impl TelegramRuntimeState {
    /// Remembers that an update was seen, so that the next request starts behind it.
    pub fn note_update(&mut self, update_id: u32)
        requires
            update_id < u32::MAX,
        ensures
            final(self)@ == old(self)@.past(update_id),
            final(self)@ == (StateView { next_offset: Some((update_id + 1) as u32), ..old(self)@ }),
    {
        self.next_offset = Some(update_id + 1);
    }

    pub fn is_awaiting(&self, chat_id: i64) -> (r: bool)
        ensures
            r == self@.awaiting.contains(chat_id),
    {
        self.awaiting_new_chats.contains(&chat_id)
    }

    pub fn await_content(&mut self, chat_id: i64)
        ensures
            final(self)@ == old(self)@.expecting(chat_id),
    {
        self.awaiting_new_chats.insert(chat_id);
        assert(self@ =~= old(self)@.expecting(chat_id));
    }

    pub fn stop_awaiting(&mut self, chat_id: i64)
        ensures
            final(self)@ == old(self)@.not_expecting(chat_id),
    {
        self.awaiting_new_chats.remove(&chat_id);
        assert(self@ =~= old(self)@.not_expecting(chat_id));
    }

    /// Keeps the matches of a search, and shows their first page.
    pub fn open_session(
        &mut self,
        matches: Vec<QueryMatch>,
        chat_id: i64,
        reply_to_message_id: Option<i32>,
    ) -> (r: OutgoingMessage)
        requires
            old(self).next_search_session_id < u64::MAX,
        ensures
            final(self)@ == old(self)@.with_session(match_views(matches@)),
            r@ == results_message(
                chat_id as int,
                old(self)@.next_session as nat,
                match_views(matches@),
                0,
                reply_to_message_id,
            ),
    {
        let session_id = self.next_search_session_id;
        let session = SearchSession { matches };
        let message = search_results_message(chat_id, session_id, &session, 0, reply_to_message_id);
        self.next_search_session_id = session_id + 1;
        let ghost kept = session;
        self.search_sessions.insert(session_id, session);
        assert(self.search_sessions@ == old(self).search_sessions@.insert(session_id, kept));
        assert(session_views(self.search_sessions@) =~= session_views(
            old(self).search_sessions@,
        ).insert(session_id, match_views(matches@)));
        message
    }

    /// The matches of an earlier search.
    pub fn session(&self, session_id: u64) -> (r: Option<&SearchSession>)
        ensures
            r is Some <==> self@.sessions.contains_key(session_id),
            r matches Some(session) ==> match_views(session.matches@)
                == self@.sessions[session_id],
    {
        self.search_sessions.get(&session_id)
    }
}

/// A new search takes nobody's number: the earlier searches stay as they are.
pub proof fn law_new_session_is_fresh(state: StateView, matches: Seq<MatchView>, id: u64)
    requires
        state.wf(),
        state.next_session < u64::MAX,
    ensures
        state.with_session(matches).wf(),
        !state.sessions.contains_key(state.next_session),
        state.with_session(matches).sessions[state.next_session] == matches,
        state.sessions.contains_key(id) ==> state.with_session(matches).sessions.contains_key(id)
            && state.with_session(matches).sessions[id] == state.sessions[id],
{
}

/// Expecting a text from a chat, or no longer, leaves the searches and the other chats alone.
pub proof fn law_awaiting_is_per_chat(state: StateView, chat_id: i64, other: i64)
    requires
        state.wf(),
        other != chat_id,
    ensures
        state.expecting(chat_id).wf(),
        state.not_expecting(chat_id).wf(),
        state.expecting(chat_id).awaiting.contains(chat_id),
        !state.not_expecting(chat_id).awaiting.contains(chat_id),
        state.expecting(chat_id).awaiting.contains(other) == state.awaiting.contains(other),
        state.not_expecting(chat_id).awaiting.contains(other) == state.awaiting.contains(other),
{
}

/// An update that was seen is not asked for again, and the next one is; what is remembered of chats
/// and searches stays.
pub proof fn law_seen_updates_are_not_asked_for_again(state: StateView, update_id: u32)
    requires
        update_id < u32::MAX,
    ensures
        state.past(update_id).next_offset matches Some(offset) && offset > update_id && offset
            <= update_id + 1,
        state.past(update_id).awaiting == state.awaiting,
        state.past(update_id).sessions == state.sessions,
        state.past(update_id).next_session == state.next_session,
{
}

/// A chat that announced a text is waited for until its text was stored, and announcing twice is
/// announcing once.
pub proof fn law_storing_ends_the_wait(state: StateView, chat_id: i64)
    ensures
        state.expecting(chat_id).expecting(chat_id) == state.expecting(chat_id),
        !state.expecting(chat_id).not_expecting(chat_id).awaiting.contains(chat_id),
        state.expecting(chat_id).sessions == state.sessions,
        state.not_expecting(chat_id).sessions == state.sessions,
        state.expecting(chat_id).next_session == state.next_session,
        state.not_expecting(chat_id).next_session == state.next_session,
        state.expecting(chat_id).next_offset == state.next_offset,
        state.not_expecting(chat_id).next_offset == state.next_offset,
{
    assert(state.expecting(chat_id).expecting(chat_id) =~= state.expecting(chat_id));
}

} // verus!
