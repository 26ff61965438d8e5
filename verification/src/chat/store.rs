//! The bounded in-memory store of conversations.

use vstd::prelude::*;

use crate::llm::{message_views, ChatMessage, ChatMessageView};
use crate::strmap::StrMap;
use crate::text::same_text;

verus! {

/// Hard cap on concurrent in-memory conversations. When it is exceeded, the
/// least recently used conversation is evicted.
pub const MAX_CONVERSATIONS: usize = 64;

/// Hard cap on transcript turns kept per conversation (each turn is one user
/// message plus one assistant message). Older turns are dropped.
pub const MAX_TURNS_KEPT: usize = 40;

/// Hard cap on the messages of a transcript.
pub const MAX_MESSAGES: usize = MAX_TURNS_KEPT * 2;

/// A single conversation's plain-text transcript plus the repo it is bound to.
pub struct Conversation {
    repo: String,
    /// Alternating user and model messages, oldest first.
    transcript: Vec<ChatMessage>,
    /// When it was last used, on a clock of the caller's.
    last_used: u128,
}

/// What a [`Conversation`] holds.
#[verifier::ext_equal]
pub struct ConversationView {
    pub repo: Seq<char>,
    pub transcript: Seq<ChatMessageView>,
    pub last_used: u128,
}

impl View for Conversation {
    type V = ConversationView;

    closed spec fn view(&self) -> ConversationView {
        ConversationView {
            repo: self.repo@,
            transcript: message_views(self.transcript@),
            last_used: self.last_used,
        }
    }
}

/// In-memory, LRU-bounded conversation store. Keyed by client-generated id.
pub struct ConversationStore {
    inner: StrMap<Conversation>,
}

/// Whether `transcript` is made of whole turns: a user message, then the model's.
pub open spec fn whole_turns(transcript: Seq<ChatMessageView>) -> bool {
    &&& transcript.len() % 2 == 0
    &&& forall|i: int|
        0 <= i < transcript.len() ==> if i % 2 == 0 {
            #[trigger] transcript[i] is User
        } else {
            transcript[i] is Model
        }
}

/// The bounds that every store keeps.
pub open spec fn bounded(m: Map<Seq<char>, ConversationView>) -> bool {
    &&& m.dom().finite()
    &&& m.len() <= MAX_CONVERSATIONS
    &&& forall|id: Seq<char>| #[trigger]
        m.contains_key(id) ==> m[id].transcript.len() <= MAX_MESSAGES && whole_turns(
            m[id].transcript,
        )
}

/// The transcript that conversation `id` has for `repo`: none where the id is
/// unknown or bound to another repo.
pub open spec fn transcript_for(
    m: Map<Seq<char>, ConversationView>,
    id: Seq<char>,
    repo: Seq<char>,
) -> Seq<ChatMessageView> {
    if m.contains_key(id) && m[id].repo == repo {
        m[id].transcript
    } else {
        Seq::empty()
    }
}

/// The store once conversation `id` has been used at `now` for `repo`.
pub open spec fn touched(
    m: Map<Seq<char>, ConversationView>,
    id: Seq<char>,
    repo: Seq<char>,
    now: u128,
) -> Map<Seq<char>, ConversationView> {
    if m.contains_key(id) && m[id].repo == repo {
        m.insert(id, ConversationView { last_used: now, ..m[id] })
    } else {
        m
    }
}

/// The newest messages of a transcript, as many as are kept.
pub open spec fn newest(transcript: Seq<ChatMessageView>) -> Seq<ChatMessageView> {
    if transcript.len() > MAX_MESSAGES {
        transcript.skip(transcript.len() - MAX_MESSAGES)
    } else {
        transcript
    }
}

/// The store once a turn has been added to conversation `id`, before eviction.
pub open spec fn with_turn(
    m: Map<Seq<char>, ConversationView>,
    id: Seq<char>,
    repo: Seq<char>,
    user: Seq<char>,
    answer: Seq<char>,
    now: u128,
) -> Map<Seq<char>, ConversationView> {
    let longer = transcript_for(m, id, repo).push(ChatMessageView::User(user)).push(
        ChatMessageView::Model(answer),
    );
    m.insert(id, ConversationView { repo, transcript: newest(longer), last_used: now })
}

/// Whether `victim` is a least recently used one of the conversations other than `id`.
pub open spec fn least_recent(
    m: Map<Seq<char>, ConversationView>,
    id: Seq<char>,
    victim: Seq<char>,
) -> bool {
    &&& m.contains_key(victim)
    &&& victim != id
    &&& forall|k: Seq<char>| #[trigger]
        m.contains_key(k) && k != id ==> m[victim].last_used <= m[k].last_used
}

/// Whether `after` is what a store `m` becomes when a turn is added to `id`.
pub open spec fn appended(
    m: Map<Seq<char>, ConversationView>,
    after: Map<Seq<char>, ConversationView>,
    id: Seq<char>,
    repo: Seq<char>,
    user: Seq<char>,
    answer: Seq<char>,
    now: u128,
) -> bool {
    let longer = with_turn(m, id, repo, user, answer, now);
    if longer.len() <= MAX_CONVERSATIONS {
        after == longer
    } else {
        exists|victim: Seq<char>| #[trigger]
            least_recent(longer, id, victim) && after == longer.remove(victim)
    }
}

/// A copy of a message, as a transcript keeps it: the messages of tools are kept
/// as empty ones.
pub open spec fn clone_msg_spec(m: ChatMessageView) -> ChatMessageView {
    match m {
        ChatMessageView::User(t) => ChatMessageView::User(t),
        ChatMessageView::Model(t) => ChatMessageView::Model(t),
        ChatMessageView::ModelToolCalls(_) => ChatMessageView::Model(Seq::empty()),
        ChatMessageView::ToolResults(_) => ChatMessageView::User(Seq::empty()),
    }
}

/// Clone a [`ChatMessage`]. Tool history is never stored in a transcript; it is
/// replaced by an empty message of the same side.
pub fn clone_msg(m: &ChatMessage) -> (res: ChatMessage)
    ensures
        res@ == clone_msg_spec(m@),
{
    match m {
        ChatMessage::User(t) => ChatMessage::User(t.clone()),
        ChatMessage::Model(t) => ChatMessage::Model(t.clone()),
        ChatMessage::ModelToolCalls(_) => ChatMessage::Model(String::new()),
        ChatMessage::ToolResults(_) => ChatMessage::User(String::new()),
    }
}

impl ConversationStore {
    /// What the store holds, by conversation id.
    pub closed spec fn view(&self) -> Map<Seq<char>, ConversationView> {
        self.inner@.map_values(|c: Conversation| c@)
    }

    /// The map of conversations is consistent.
    pub closed spec fn consistent(&self) -> bool {
        self.inner.wf()
    }

    /// The store is consistent and within its bounds.
    pub open spec fn wf(&self) -> bool {
        &&& self.consistent()
        &&& bounded(self@)
    }

    /// An empty store.
    pub fn new() -> (res: Self)
        ensures
            res.wf(),
            res@ == Map::<Seq<char>, ConversationView>::empty(),
    {
        let res = ConversationStore { inner: StrMap::new() };
        assert(res@ =~= Map::<Seq<char>, ConversationView>::empty());
        res
    }

    /// The number of conversations.
    pub fn len(&self) -> (res: usize)
        requires
            self.wf(),
        ensures
            res == self@.len(),
            res <= MAX_CONVERSATIONS,
    {
        proof {
            self.inner.lemma_order();
            self.inner.order().unique_seq_to_set();
            assert(self@.dom() =~= self.inner@.dom());
        }
        self.inner.len()
    }

    /// Return the transcript for `id` (empty if unknown), refreshing its LRU
    /// stamp. An id that is bound to a different repo counts as unknown.
    pub fn snapshot(&mut self, id: &str, repo: &str, now: u128) -> (res: Vec<ChatMessage>)
        requires
            old(self).wf(),
        ensures
            final(self).wf(),
            message_views(res@) == transcript_for(old(self)@, id@, repo@),
            final(self)@ == touched(old(self)@, id@, repo@, now),
    {
        let ghost before = self@;
        let ghost was = self.inner@;
        let mut res: Vec<ChatMessage> = Vec::new();
        match self.inner.get_mut(id) {
            Some(c) => {
                if same_text(c.repo.as_str(), repo) {
                    c.last_used = now;
                    assert(before.contains_key(id@) && before[id@].transcript == message_views(
                        c.transcript@,
                    ));
                    let mut i: usize = 0;
                    while i < c.transcript.len()
                        invariant
                            i <= c.transcript@.len(),
                            res@.len() == i,
                            whole_turns(message_views(c.transcript@)),
                            forall|k: int| 0 <= k < i ==> #[trigger] res@[k]@ == c.transcript@[k]@,
                        decreases c.transcript@.len() - i,
                    {
                        assert(message_views(c.transcript@)[i as int] == c.transcript@[i as int]@);
                        res.push(clone_msg(&c.transcript[i]));
                        i += 1;
                    }
                    assert(message_views(res@) =~= message_views(c.transcript@));
                }
            },
            None => {},
        }
        proof {
            assert(self@ =~= touched(before, id@, repo@, now));
            assert(message_views(res@) =~= transcript_for(before, id@, repo@));
        }
        res
    }

    /// Append one completed (user, assistant) turn to a conversation, creating
    /// it if absent. An id that was bound to another repo starts over. Both caps
    /// are enforced: the turns of the conversation, then the number of
    /// conversations, of which the least recently used other one goes.
    pub fn append_turn(&mut self, id: &str, repo: &str, user: String, answer: String, now: u128)
        requires
            old(self).wf(),
        ensures
            final(self).wf(),
            appended(old(self)@, final(self)@, id@, repo@, user@, answer@, now),
    {
        let ghost before = self@;
        let ghost longer = with_turn(before, id@, repo@, user@, answer@, now);
        let ghost prior = transcript_for(before, id@, repo@);
        let mut transcript: Vec<ChatMessage> = Vec::new();
        match self.inner.get_mut(id) {
            Some(c) => {
                if same_text(c.repo.as_str(), repo) {
                    std::mem::swap(&mut transcript, &mut c.transcript);
                }
            },
            None => {},
        }
        assert(message_views(transcript@) =~= prior);
        let ghost had = transcript@;
        transcript.push(ChatMessage::User(user));
        transcript.push(ChatMessage::Model(answer));
        let ghost full = message_views(transcript@);
        proof {
            assert(full =~= prior.push(ChatMessageView::User(user@)).push(
                ChatMessageView::Model(answer@),
            ));
            assert(whole_turns(prior)) by {
                if before.contains_key(id@) {
                    assert(whole_turns(before[id@].transcript));
                }
            }
            assert(prior.len() <= MAX_MESSAGES) by {
                if before.contains_key(id@) {
                    assert(before[id@].transcript.len() <= MAX_MESSAGES);
                }
            }
            lemma_whole_turns_push(prior, user@, answer@);
        }
        if transcript.len() > MAX_MESSAGES {
            let _ = transcript.remove(0);
            let _ = transcript.remove(0);
            proof {
                assert(message_views(transcript@) =~= full.skip(2));
                lemma_whole_turns_skip(full);
            }
        }
        assert(message_views(transcript@) =~= newest(full));
        let conversation = Conversation { repo: repo.to_owned(), transcript, last_used: now };
        self.inner.insert(id, conversation);
        proof {
            assert(self@ =~= longer);
            lemma_longer_bounds(before, id@, repo@, user@, answer@, now);
            self.inner.lemma_order();
            self.inner.order().unique_seq_to_set();
            assert(self@.dom() =~= self.inner@.dom());
        }
        if self.inner.len() > MAX_CONVERSATIONS {
            let victim = self.find_least_recent(id);
            let key = self.inner.key_at(victim).clone();
            assert(least_recent(longer, id@, key@));
            let _ = self.inner.remove(key.as_str());
            proof {
                assert(self@ =~= longer.remove(key@));
                assert(self@.len() == longer.len() - 1);
            }
        }
    }

    /// The position of a least recently used one of the conversations other than `id`.
    fn find_least_recent(&self, id: &str) -> (res: usize)
        requires
            self.inner.wf(),
            self.inner.order().len() >= 2,
        ensures
            res < self.inner.order().len(),
            least_recent(self@, id@, self.inner.order()[res as int]),
    {
        let mut best: Option<usize> = None;
        let mut i: usize = 0;
        let ghost order = self.inner.order();
        proof {
            self.inner.lemma_order();
        }
        while i < self.inner.len()
            invariant
                self.inner.wf(),
                order == self.inner.order(),
                i <= order.len(),
                match best {
                    Some(b) => {
                        &&& b < i
                        &&& order[b as int] != id@
                        &&& forall|k: int|
                            0 <= k < i && #[trigger] order[k] != id@
                                ==> self.inner@[order[b as int]].last_used
                                <= self.inner@[order[k]].last_used
                    },
                    None => forall|k: int| 0 <= k < i ==> #[trigger] order[k] == id@,
                },
            decreases order.len() - i,
        {
            if !same_text(self.inner.key_at(i).as_str(), id) {
                let stamp: u128 = self.inner.value_at(i).last_used;
                match best {
                    Some(b) => {
                        if stamp < self.inner.value_at(b).last_used {
                            best = Some(i);
                        }
                    },
                    None => {
                        best = Some(i);
                    },
                }
            }
            i += 1;
        }
        match best {
            Some(b) => {
                proof {
                    let victim = order[b as int];
                    assert(self.inner@.contains_key(victim));
                    assert forall|k: Seq<char>| #[trigger]
                        self@.contains_key(k) && k != id@ implies self@[victim].last_used
                        <= self@[k].last_used by {
                        assert(self.inner@.contains_key(k));
                        assert(order.contains(k));
                        let j = choose|j: int| 0 <= j < order.len() && order[j] == k;
                        assert(order[j] != id@);
                    }
                }
                b
            },
            None => {
                assert(order[0] == order[1]);
                0
            },
        }
    }

    /// Drop a conversation (called when the dialog is closed).
    pub fn drop_conversation(&mut self, id: &str)
        requires
            old(self).wf(),
        ensures
            final(self).wf(),
            final(self)@ == old(self)@.remove(id@),
    {
        let ghost before = self@;
        let _ = self.inner.remove(id);
        proof {
            assert(self@ =~= before.remove(id@));
        }
    }
}

impl Default for ConversationStore {
    fn default() -> (res: Self)
        ensures
            res.wf(),
            res@ == Map::<Seq<char>, ConversationView>::empty(),
    {
        Self::new()
    }
}

proof fn lemma_whole_turns_push(prior: Seq<ChatMessageView>, user: Seq<char>, answer: Seq<char>)
    requires
        whole_turns(prior),
    ensures
        whole_turns(
            prior.push(ChatMessageView::User(user)).push(ChatMessageView::Model(answer)),
        ),
{
}

proof fn lemma_whole_turns_skip(full: Seq<ChatMessageView>)
    requires
        whole_turns(full),
        full.len() >= 2,
    ensures
        whole_turns(full.skip(2)),
{
    let rest = full.skip(2);
    assert forall|i: int| 0 <= i < rest.len() implies if i % 2 == 0 {
        #[trigger] rest[i] is User
    } else {
        rest[i] is Model
    } by {
        assert(rest[i] == full[i + 2]);
    }
}

proof fn lemma_longer_bounds(
    m: Map<Seq<char>, ConversationView>,
    id: Seq<char>,
    repo: Seq<char>,
    user: Seq<char>,
    answer: Seq<char>,
    now: u128,
)
    requires
        bounded(m),
    ensures
        ({
            let longer = with_turn(m, id, repo, user, answer, now);
            &&& longer.dom().finite()
            &&& longer.len() <= m.len() + 1
            &&& longer.len() <= MAX_CONVERSATIONS + 1
            &&& forall|k: Seq<char>| #[trigger]
                longer.contains_key(k) ==> longer[k].transcript.len() <= MAX_MESSAGES
                    && whole_turns(longer[k].transcript)
        }),
{
    let longer = with_turn(m, id, repo, user, answer, now);
    let prior = transcript_for(m, id, repo);
    assert(whole_turns(prior) && prior.len() <= MAX_MESSAGES) by {
        if m.contains_key(id) {
            assert(whole_turns(m[id].transcript));
        }
    }
    let full = prior.push(ChatMessageView::User(user)).push(ChatMessageView::Model(answer));
    lemma_whole_turns_push(prior, user, answer);
    if full.len() > MAX_MESSAGES {
        lemma_whole_turns_skip(full);
    }
    assert(longer.dom() =~= m.dom().insert(id));
    assert forall|k: Seq<char>| #[trigger] longer.contains_key(k) implies longer[k].transcript.len()
        <= MAX_MESSAGES && whole_turns(longer[k].transcript) by {
        if k != id {
            assert(m.contains_key(k));
        }
    }
}

/// What is read back after a turn has been added is the earlier transcript for
/// the same repo followed by that turn, cut to its newest messages; for any other
/// repo the conversation is empty.
pub proof fn law_append_then_read(
    m: Map<Seq<char>, ConversationView>,
    after: Map<Seq<char>, ConversationView>,
    id: Seq<char>,
    repo: Seq<char>,
    user: Seq<char>,
    answer: Seq<char>,
    now: u128,
    other: Seq<char>,
)
    requires
        appended(m, after, id, repo, user, answer, now),
        other != repo,
    ensures
        transcript_for(after, id, repo) == newest(
            transcript_for(m, id, repo).push(ChatMessageView::User(user)).push(
                ChatMessageView::Model(answer),
            ),
        ),
        transcript_for(after, id, other) == Seq::<ChatMessageView>::empty(),
{
}

/// Adding a turn keeps a store within its bounds: at most 64 conversations, each
/// of at most 40 turns, and nothing but whole turns in any of them.
pub proof fn law_append_keeps_bounds(
    m: Map<Seq<char>, ConversationView>,
    after: Map<Seq<char>, ConversationView>,
    id: Seq<char>,
    repo: Seq<char>,
    user: Seq<char>,
    answer: Seq<char>,
    now: u128,
)
    requires
        bounded(m),
        appended(m, after, id, repo, user, answer, now),
    ensures
        bounded(after),
{
    let longer = with_turn(m, id, repo, user, answer, now);
    lemma_longer_bounds(m, id, repo, user, answer, now);
    if longer.len() > MAX_CONVERSATIONS {
        let victim = choose|victim: Seq<char>| #[trigger]
            least_recent(longer, id, victim) && after == longer.remove(victim);
        assert(after.dom() =~= longer.dom().remove(victim));
        assert forall|k: Seq<char>| #[trigger] after.contains_key(k) implies
            after[k].transcript.len() <= MAX_MESSAGES && whole_turns(after[k].transcript) by {
            assert(longer.contains_key(k));
        }
    }
}

/// Adding a turn to one conversation leaves every other one as it was, but for at
/// most one, a least recently used one, that is gone; and none goes while there
/// is room.
pub proof fn law_append_leaves_others(
    m: Map<Seq<char>, ConversationView>,
    after: Map<Seq<char>, ConversationView>,
    id: Seq<char>,
    repo: Seq<char>,
    user: Seq<char>,
    answer: Seq<char>,
    now: u128,
    k: Seq<char>,
)
    requires
        bounded(m),
        appended(m, after, id, repo, user, answer, now),
        k != id,
        m.contains_key(k),
    ensures
        after.contains_key(k) ==> after[k] == m[k],
        !after.contains_key(k) ==> m.len() == MAX_CONVERSATIONS && !m.contains_key(id)
            && forall|j: Seq<char>| #[trigger]
            m.contains_key(j) && j != id ==> m[k].last_used <= m[j].last_used,
{
    let longer = with_turn(m, id, repo, user, answer, now);
    assert(longer.dom() =~= m.dom().insert(id));
    if !after.contains_key(k) {
        let victim = choose|victim: Seq<char>| #[trigger]
            least_recent(longer, id, victim) && after == longer.remove(victim);
        assert(victim == k);
        assert forall|j: Seq<char>| #[trigger] m.contains_key(j) && j != id implies m[k].last_used
            <= m[j].last_used by {
            assert(longer.contains_key(j));
        }
    }
}

/// A conversation that was dropped reads as empty for every repo, and is as good
/// as new.
pub proof fn law_drop_forgets(
    m: Map<Seq<char>, ConversationView>,
    id: Seq<char>,
    repo: Seq<char>,
)
    ensures
        transcript_for(m.remove(id), id, repo) == Seq::<ChatMessageView>::empty(),
{
}

/// Reading a transcript changes no transcript.
pub proof fn law_reading_keeps_transcripts(
    m: Map<Seq<char>, ConversationView>,
    id: Seq<char>,
    repo: Seq<char>,
    now: u128,
    k: Seq<char>,
    r: Seq<char>,
)
    ensures
        touched(m, id, repo, now).dom() == m.dom(),
        transcript_for(touched(m, id, repo, now), k, r) == transcript_for(m, k, r),
{
    assert(touched(m, id, repo, now).dom() =~= m.dom());
}

/// Adding a turn makes the conversation longer by its question and its answer, whole and
/// in that order. While there is room, every earlier message for the same repo stays;
/// once 40 turns are kept, just the oldest one goes. The conversation is then bound to
/// the repo and stamped with the time.
pub proof fn law_turn_is_added_whole(
    m: Map<Seq<char>, ConversationView>,
    after: Map<Seq<char>, ConversationView>,
    id: Seq<char>,
    repo: Seq<char>,
    user: Seq<char>,
    answer: Seq<char>,
    now: u128,
)
    requires
        bounded(m),
        appended(m, after, id, repo, user, answer, now),
    ensures
        ({
            let prior = if m.contains_key(id) && m[id].repo == repo {
                m[id].transcript
            } else {
                Seq::empty()
            };
            &&& after.contains_key(id)
            &&& after[id].repo == repo
            &&& after[id].last_used == now
            &&& after[id].transcript == (if prior.len() < 80 {
                prior
            } else {
                prior.skip(2)
            }) + seq![ChatMessageView::User(user), ChatMessageView::Model(answer)]
        }),
{
    let prior = if m.contains_key(id) && m[id].repo == repo {
        m[id].transcript
    } else {
        Seq::empty()
    };
    if m.contains_key(id) {
        assert(m[id].transcript.len() <= MAX_MESSAGES && whole_turns(m[id].transcript));
    }
    let new = seq![ChatMessageView::User(user), ChatMessageView::Model(answer)];
    let full = prior.push(ChatMessageView::User(user)).push(ChatMessageView::Model(answer));
    assert(full =~= prior + new);
    if prior.len() >= 80 {
        assert(full.skip(2) =~= prior.skip(2) + new);
    }
}

/// Which conversations there are once a turn is added: those that were there and this
/// one, but that, where 64 others were there before, one of these that was used least
/// recently has gone. All others are as they were.
pub proof fn law_least_recent_goes_at_the_cap(
    m: Map<Seq<char>, ConversationView>,
    after: Map<Seq<char>, ConversationView>,
    id: Seq<char>,
    repo: Seq<char>,
    user: Seq<char>,
    answer: Seq<char>,
    now: u128,
)
    requires
        bounded(m),
        appended(m, after, id, repo, user, answer, now),
    ensures
        forall|k: Seq<char>| #[trigger]
            after.contains_key(k) && k != id ==> m.contains_key(k) && after[k] == m[k],
        m.contains_key(id) || m.len() < 64 ==> after.dom() == m.dom().insert(id),
        !m.contains_key(id) && m.len() == 64 ==> exists|gone: Seq<char>|
            {
                &&& #[trigger] m.contains_key(gone)
                &&& after.dom() == m.dom().insert(id).remove(gone)
                &&& gone != id
                &&& forall|k: Seq<char>| #[trigger]
                    m.contains_key(k) ==> m[gone].last_used <= m[k].last_used
            },
{
    let longer = with_turn(m, id, repo, user, answer, now);
    assert(longer.dom() =~= m.dom().insert(id));
    if longer.len() > MAX_CONVERSATIONS {
        let gone = choose|victim: Seq<char>| #[trigger]
            least_recent(longer, id, victim) && after == longer.remove(victim);
        assert(m.contains_key(gone));
        assert(after.dom() =~= m.dom().insert(id).remove(gone));
        assert forall|k: Seq<char>| #[trigger] m.contains_key(k) implies m[gone].last_used
            <= m[k].last_used by {
            assert(longer.contains_key(k));
        }
    }
}

/// A read gives back the whole transcript where the conversation is there and bound to
/// the repo, and then stamps it with the time; else it gives back nothing and changes
/// nothing.
pub proof fn law_read_gives_the_transcript(
    m: Map<Seq<char>, ConversationView>,
    id: Seq<char>,
    repo: Seq<char>,
    now: u128,
)
    ensures
        m.contains_key(id) && m[id].repo == repo ==> {
            &&& transcript_for(m, id, repo) == m[id].transcript
            &&& touched(m, id, repo, now) == m.insert(
                id,
                ConversationView { repo, transcript: m[id].transcript, last_used: now },
            )
        },
        !m.contains_key(id) || m[id].repo != repo ==> {
            &&& transcript_for(m, id, repo).len() == 0
            &&& touched(m, id, repo, now) == m
        },
{
}

/// A copy of a message of a transcript is that message, and a copy of tool history is an
/// empty message of the same side.
pub proof fn law_copies_keep_plain_messages(text: Seq<char>, m: ChatMessageView)
    ensures
        clone_msg_spec(ChatMessageView::User(text)) == ChatMessageView::User(text),
        clone_msg_spec(ChatMessageView::Model(text)) == ChatMessageView::Model(text),
        m is ModelToolCalls ==> clone_msg_spec(m) == ChatMessageView::Model(Seq::empty()),
        m is ToolResults ==> clone_msg_spec(m) == ChatMessageView::User(Seq::empty()),
{
}

} // verus!
