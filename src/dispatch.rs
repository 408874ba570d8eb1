use vstd::prelude::*;

use crate::context::{build_context, context_window, join_with, merged_history};
use crate::guild::{strings_view, GuildMeta, GuildModel, Phrase, PhraseModel};
use crate::oracle::{choose_document, chosen_document, ScoredDocument};

verus! {

/// Whether a draw in 0..=100 triggers a response at `chance` percent: never
/// at 0, always at 100, otherwise when the draw is at most the chance.
pub open spec fn triggers(chance: u8, draw: u8) -> bool {
    chance > 0 && draw <= chance
}

/// The separator between the keywords of a phrase's document.
pub open spec fn keyword_separator() -> Seq<char> {
    seq![',', ' ']
}

/// What the oracle matches a phrase by: its keywords joined by ", ", or its
/// text when that gives nothing.
pub open spec fn document_of(p: PhraseModel) -> Seq<char> {
    let k = join_with(p.keywords, keyword_separator());
    if k.len() == 0 {
        p.text
    } else {
        k
    }
}

impl GuildModel {
    /// The guild answered less than `cooldown` seconds before `now`.
    pub open spec fn on_guild_cooldown(self, now: u64) -> bool {
        match self.last_response {
            Some(t) => now - t < self.config.cooldown,
            None => false,
        }
    }

    /// A message is eligible: it comes from an allowed channel, not from the
    /// engine itself, and the guild is not on cooldown.
    pub open spec fn admits(self, channel: u64, from_self: bool, now: u64) -> bool {
        &&& self.channels.contains(channel)
        &&& !from_self
        &&& !self.on_guild_cooldown(now)
    }

    /// A message goes on to scoring: it is eligible and the draw triggers.
    pub open spec fn proceeds(self, channel: u64, from_self: bool, now: u64, draw: u8) -> bool {
        self.admits(channel, from_self, now) && triggers(self.config.chance, draw)
    }

    /// The documents handed to the oracle, one per phrase, in catalog order.
    pub open spec fn documents(self) -> Seq<Seq<char>> {
        self.phrases.map_values(|p: PhraseModel| document_of(p))
    }

    /// The query for a newest-first history.
    pub open spec fn query_text(self, history: Seq<Seq<char>>) -> Seq<char> {
        context_window(merged_history(history), self.config.max_context_len as nat)
    }

    /// Phrase `i` was never sent, or at least `cooldown` seconds ago.
    pub open spec fn phrase_ready(self, i: int, now: u64) -> bool {
        match self.phrases[i].last_used {
            Some(t) => now - t >= self.config.cooldown,
            None => true,
        }
    }

    /// The state after phrase `i` is sent at `now`.
    pub open spec fn committed(self, i: int, now: u64) -> GuildModel {
        GuildModel {
            last_response: Some(now),
            phrases: self.phrases.update(i, PhraseModel { last_used: Some(now), ..self.phrases[i] }),
            ..self
        }
    }

    /// The phrase sent for an oracle answer at `now`, if any: the chosen
    /// document, when its phrase is off cooldown.
    pub open spec fn response(self, results: Seq<ScoredDocument>, now: u64) -> Option<int> {
        match chosen_document(results, self.config.minimum_score, self.phrases.len()) {
            Some(d) => if self.phrase_ready(d as int, now) {
                Some(d as int)
            } else {
                None
            },
            None => None,
        }
    }
}

/// With a chance of 0 percent no message reaches scoring, whatever the draw.
pub proof fn lemma_zero_chance_never_scores(
    g: GuildModel,
    channel: u64,
    from_self: bool,
    now: u64,
    draw: u8,
)
    requires
        g.config.chance == 0,
    ensures
        !g.proceeds(channel, from_self, now, draw),
{
}

/// With a chance of 100 percent every eligible message reaches scoring,
/// whatever the draw in 0..=100.
pub proof fn lemma_full_chance_always_scores(
    g: GuildModel,
    channel: u64,
    from_self: bool,
    now: u64,
    draw: u8,
)
    requires
        g.config.chance == 100,
        g.admits(channel, from_self, now),
        draw <= 100,
    ensures
        g.proceeds(channel, from_self, now, draw),
{
}

/// Once phrase `i` is committed at `t`, it cannot be committed again before
/// `t + cooldown`.
pub proof fn lemma_commit_monotonic(g: GuildModel, i: int, t: u64, later: u64)
    requires
        0 <= i < g.phrases.len(),
        later < t + g.config.cooldown,
    ensures
        !g.committed(i, t).phrase_ready(i, later),
{
}

/// Once the guild has answered at `t`, no message is eligible before
/// `t + cooldown`, whatever its channel, author or draw.
pub proof fn lemma_guild_cooldown_after_response(
    g: GuildModel,
    i: int,
    t: u64,
    later: u64,
    channel: u64,
    from_self: bool,
)
    requires
        0 <= i < g.phrases.len(),
        later < t + g.config.cooldown,
    ensures
        !g.committed(i, t).admits(channel, from_self, later),
{
}

/// A query and the documents to rank against it.
pub struct Query {
    pub text: String,
    pub documents: Vec<String>,
}

/// Relies on fastrand::u8 over the inclusive range 0..=100: a draw from the
/// global generator, which lies within the range and never panics on a
/// non-empty one.
#[verifier::external_body]
fn draw_percent() -> (r: u8)
    ensures
        r <= 100,
{
    fastrand::u8(0..=100)
}

/// Whether a draw of `draw` triggers a response at `chance` percent.
pub fn triggered(chance: u8, draw: u8) -> (r: bool)
    ensures
        r == triggers(chance, draw),
{
    chance > 0 && draw <= chance
}

/// Joins keywords with ", ".
pub fn join_keywords(keywords: &Vec<String>) -> (r: String)
    ensures
        r@ == join_with(strings_view(keywords@), keyword_separator()),
{
    let ghost kv = strings_view(keywords@);
    let mut joined = String::new();
    let mut i: usize = 0;
    proof {
        assert(kv.take(0) =~= Seq::<Seq<char>>::empty());
    }
    while i < keywords.len()
        invariant
            0 <= i <= keywords.len(),
            kv == strings_view(keywords@),
            joined@ == join_with(kv.take(i as int), keyword_separator()),
        decreases keywords.len() - i,
    {
        let k = &keywords[i];
        proof {
            assert(kv.take(i + 1).drop_last() =~= kv.take(i as int));
            assert(kv.take(i + 1).last() == k@);
        }
        if i > 0 {
            joined.append(", ");
        }
        joined.append(k.as_str());
        proof {
            if i == 0 {
                assert(kv.take(1)[0] == k@);
                assert(joined@ =~= join_with(kv.take(1), keyword_separator()));
            } else {
                reveal_strlit(", ");
                assert(", "@ =~= keyword_separator());
            }
        }
        i = i + 1;
    }
    proof {
        assert(kv.take(keywords.len() as int) =~= kv);
    }
    joined
}

/// The document that stands for `p` before the oracle.
pub fn document(p: &Phrase) -> (r: String)
    ensures
        r@ == document_of(p@),
{
    let k = join_keywords(&p.keywords);
    if k.unicode_len() == 0 {
        p.text.clone()
    } else {
        k
    }
}

impl GuildMeta {
    /// Whether the guild answered less than `cooldown` seconds before `now`.
    pub fn on_guild_cooldown(&self, now: u64) -> (r: bool)
        ensures
            r == self@.on_guild_cooldown(now),
    {
        match self.last_response {
            Some(t) => now < t || now - t < self.config.cooldown as u64,
            None => false,
        }
    }

    /// Whether a message in `channel` is eligible for a response at `now`.
    pub fn admits(&self, channel: u64, from_self: bool, now: u64) -> (r: bool)
        ensures
            r == self@.admits(channel, from_self, now),
    {
        self.has_channel(channel) && !from_self && !self.on_guild_cooldown(now)
    }

    /// Whether a message goes on to scoring, for a given draw in 0..=100.
    pub fn begin_with_draw(&self, channel: u64, from_self: bool, now: u64, draw: u8) -> (r: bool)
        ensures
            r == self@.proceeds(channel, from_self, now, draw),
    {
        self.admits(channel, from_self, now) && triggered(self.config.chance, draw)
    }

    /// Whether a message goes on to scoring; draws the chance itself. Only
    /// an eligible message can go on; at a chance of 0 none does, at 100
    /// every eligible one does.
    pub fn begin(&self, channel: u64, from_self: bool, now: u64) -> (r: bool)
        ensures
            r ==> self@.admits(channel, from_self, now),
            self@.config.chance == 0 ==> !r,
            self@.config.chance == 100 && self@.admits(channel, from_self, now) ==> r,
    {
        if !self.admits(channel, from_self, now) {
            return false;
        }
        let draw = draw_percent();
        self.begin_with_draw(channel, from_self, now, draw)
    }

    /// The documents handed to the oracle, one per phrase, in catalog order.
    pub fn documents(&self) -> (r: Vec<String>)
        ensures
            strings_view(r@) == self@.documents(),
    {
        let mut r: Vec<String> = Vec::new();
        let mut i: usize = 0;
        while i < self.phrases.len()
            invariant
                0 <= i <= self.phrases.len(),
                r@.len() == i,
                forall|j: int| 0 <= j < i ==> r@[j]@ == document_of(self.phrases@[j]@),
            decreases self.phrases.len() - i,
        {
            r.push(document(&self.phrases[i]));
            i = i + 1;
        }
        proof {
            assert(strings_view(r@) =~= self@.documents());
        }
        r
    }

    /// The query for a newest-first history, cut to the guild's budget, and
    /// the documents to rank against it; none when the guild has no phrase,
    /// since the oracle cannot rank an empty list.
    pub fn query(&self, history: &Vec<String>) -> (r: Option<Query>)
        ensures
            r is None <==> self@.phrases.len() == 0,
            r matches Some(q) ==> {
                &&& q.text@ == self@.query_text(strings_view(history@))
                &&& q.text@.len() <= self@.config.max_context_len
                &&& strings_view(q.documents@) == self@.documents()
            },
    {
        if self.phrases.len() == 0 {
            return None;
        }
        let text = build_context(history, self.config.max_context_len);
        Some(Query { text, documents: self.documents() })
    }

    /// Whether phrase `i` is off cooldown at `now`.
    pub fn phrase_ready(&self, i: usize, now: u64) -> (r: bool)
        requires
            i < self@.phrases.len(),
        ensures
            r == self@.phrase_ready(i as int, now),
    {
        match self.phrases[i].last_used {
            Some(t) => now >= t && now - t >= self.config.cooldown as u64,
            None => true,
        }
    }

    /// Commits a response with phrase `i` at `now` if the phrase is off
    /// cooldown: the guild and the phrase are then both stamped with `now`.
    /// Otherwise nothing changes.
    pub fn try_commit(&mut self, i: usize, now: u64) -> (r: bool)
        requires
            old(self)@.wf(),
            i < old(self)@.phrases.len(),
        ensures
            r == old(self)@.phrase_ready(i as int, now),
            r ==> final(self)@ == old(self)@.committed(i as int, now),
            !r ==> final(self)@ == old(self)@,
            final(self)@.wf(),
    {
        if !self.phrase_ready(i, now) {
            return false;
        }
        let ghost before = self@;
        let mut p = self.phrases.remove(i);
        p.last_used = Some(now);
        self.phrases.insert(i, p);
        self.last_response = Some(now);
        proof {
            assert(self@.phrases =~= before.committed(i as int, now).phrases);
            assert(self@.texts() =~= before.texts());
        }
        true
    }

    /// Turns the oracle's answer into the phrase to send, if any, and
    /// commits its cooldown; when nothing is sent nothing changes.
    pub fn conclude(&mut self, results: &Vec<ScoredDocument>, now: u64) -> (r: Option<String>)
        requires
            old(self)@.wf(),
        ensures
            final(self)@.wf(),
            match old(self)@.response(results@, now) {
                Some(i) => {
                    &&& r matches Some(t) && t@ == old(self)@.phrases[i].text
                    &&& final(self)@ == old(self)@.committed(i, now)
                },
                None => r is None && final(self)@ == old(self)@,
            },
    {
        match choose_document(results, self.config.minimum_score, self.phrases.len()) {
            Some(d) => {
                let ghost before = self@;
                if self.try_commit(d, now) {
                    proof {
                        assert(self@.phrases[d as int].text == before.phrases[d as int].text);
                    }
                    Some(self.phrases[d].text.clone())
                } else {
                    None
                }
            },
            None => None,
        }
    }
}

} // verus!
