use vstd::prelude::*;

use crate::config::Config;
use crate::guild::{clone_strings, strings_view, GuildMeta, GuildModel, Phrase, PhraseModel};

verus! {

/// A phrase as it is saved: its text and keywords, never its cooldown.
pub struct RecordModel {
    pub text: Seq<char>,
    pub keywords: Seq<Seq<char>>,
}

/// A saved guild as the contracts see it.
pub struct SnapshotModel {
    pub phrases: Seq<RecordModel>,
    pub channels: Seq<u64>,
    pub config: Config,
}

/// A saved phrase.
pub struct PhraseRecord {
    pub text: String,
    pub keywords: Vec<String>,
}

impl View for PhraseRecord {
    type V = RecordModel;

    open spec fn view(&self) -> RecordModel {
        RecordModel { text: self.text@, keywords: strings_view(self.keywords@) }
    }
}

/// What is saved of a guild: its phrase catalog, its channels and its
/// settings. Cooldowns are not saved and start afresh on load.
pub struct Snapshot {
    pub phrases: Vec<PhraseRecord>,
    pub channels: Vec<u64>,
    pub config: Config,
}

impl View for Snapshot {
    type V = SnapshotModel;

    open spec fn view(&self) -> SnapshotModel {
        SnapshotModel {
            phrases: self.phrases@.map_values(|p: PhraseRecord| p@),
            channels: self.channels@,
            config: self.config,
        }
    }
}

impl SnapshotModel {
    pub open spec fn texts(self) -> Seq<Seq<char>> {
        self.phrases.map_values(|p: RecordModel| p.text)
    }

    /// A snapshot can be loaded: phrase texts unique, keywords unique within
    /// a phrase, channels unique, settings in bounds.
    pub open spec fn valid(self) -> bool {
        &&& self.texts().no_duplicates()
        &&& forall|i: int|
            0 <= i < self.phrases.len() ==> (#[trigger] self.phrases[i]).keywords.no_duplicates()
        &&& self.channels.no_duplicates()
        &&& self.config.valid()
    }

    /// The guild a snapshot loads into: never answered, no phrase used.
    pub open spec fn restored(self) -> GuildModel {
        GuildModel {
            last_response: None,
            phrases: self.phrases.map_values(
                |p: RecordModel| PhraseModel { text: p.text, keywords: p.keywords, last_used: None },
            ),
            channels: self.channels,
            config: self.config,
        }
    }
}

impl GuildModel {
    /// What is saved of the guild.
    pub open spec fn snapshot(self) -> SnapshotModel {
        SnapshotModel {
            phrases: self.phrases.map_values(
                |p: PhraseModel| RecordModel { text: p.text, keywords: p.keywords },
            ),
            channels: self.channels,
            config: self.config,
        }
    }

    /// The guild with its cooldowns cleared.
    pub open spec fn without_cooldowns(self) -> GuildModel {
        GuildModel {
            last_response: None,
            phrases: self.phrases.map_values(
                |p: PhraseModel| PhraseModel { last_used: None, ..p },
            ),
            ..self
        }
    }
}

/// Loading what was saved of a well-formed guild succeeds and gives back the
/// same phrases, keywords, channels and settings, with cooldowns cleared.
pub proof fn lemma_snapshot_round_trip(g: GuildModel)
    requires
        g.wf(),
    ensures
        g.snapshot().valid(),
        g.snapshot().restored() == g.without_cooldowns(),
{
    let s = g.snapshot();
    assert(s.texts() =~= g.texts());
    assert forall|i: int| 0 <= i < s.phrases.len() implies (#[trigger] s.phrases[i]).keywords.no_duplicates() by {
        assert(s.phrases[i].keywords == g.phrases[i].keywords);
    }
    assert(s.restored().phrases =~= g.without_cooldowns().phrases);
}

/// Whether no string occurs twice in `v`.
pub fn strings_distinct(v: &Vec<String>) -> (r: bool)
    ensures
        r == strings_view(v@).no_duplicates(),
{
    let ghost sv = strings_view(v@);
    let mut i: usize = 0;
    while i < v.len()
        invariant
            0 <= i <= v.len(),
            sv == strings_view(v@),
            forall|a: int, b: int| 0 <= a < i && 0 <= b < v.len() && a != b ==> sv[a] != sv[b],
        decreases v.len() - i,
    {
        let mut j: usize = 0;
        while j < v.len()
            invariant
                0 <= i < v.len(),
                0 <= j <= v.len(),
                sv == strings_view(v@),
                forall|a: int, b: int| 0 <= a < i && 0 <= b < v.len() && a != b ==> sv[a] != sv[b],
                forall|b: int| 0 <= b < j && b != i ==> sv[i as int] != sv[b],
            decreases v.len() - j,
        {
            if j != i && v[i] == v[j] {
                proof {
                    assert(sv[i as int] == sv[j as int]);
                }
                return false;
            }
            j = j + 1;
        }
        i = i + 1;
    }
    true
}

/// Whether no channel occurs twice in `v`.
pub fn channels_distinct(v: &Vec<u64>) -> (r: bool)
    ensures
        r == v@.no_duplicates(),
{
    let mut i: usize = 0;
    while i < v.len()
        invariant
            0 <= i <= v.len(),
            forall|a: int, b: int| 0 <= a < i && 0 <= b < v.len() && a != b ==> v@[a] != v@[b],
        decreases v.len() - i,
    {
        let mut j: usize = 0;
        while j < v.len()
            invariant
                0 <= i < v.len(),
                0 <= j <= v.len(),
                forall|a: int, b: int| 0 <= a < i && 0 <= b < v.len() && a != b ==> v@[a] != v@[b],
                forall|b: int| 0 <= b < j && b != i ==> v@[i as int] != v@[b],
            decreases v.len() - j,
        {
            if j != i && v[i] == v[j] {
                return false;
            }
            j = j + 1;
        }
        i = i + 1;
    }
    true
}

/// Why a snapshot was refused.
#[derive(Clone, Copy, Debug, PartialEq, Eq, Structural)]
pub enum SnapshotError {
    /// A phrase, a keyword of one phrase or a channel occurs twice, or the
    /// settings are out of bounds.
    Invalid,
}

impl Snapshot {
    /// Whether the snapshot can be loaded.
    pub fn is_valid(&self) -> (r: bool)
        ensures
            r == self@.valid(),
    {
        if !self.config.is_valid() || !channels_distinct(&self.channels) {
            return false;
        }
        let mut texts: Vec<String> = Vec::new();
        let mut i: usize = 0;
        while i < self.phrases.len()
            invariant
                0 <= i <= self.phrases.len(),
                texts@.len() == i,
                forall|j: int| 0 <= j < i ==> texts@[j]@ == self.phrases@[j].text@,
                forall|j: int|
                    0 <= j < i ==> (#[trigger] self@.phrases[j]).keywords.no_duplicates(),
            decreases self.phrases.len() - i,
        {
            if !strings_distinct(&self.phrases[i].keywords) {
                proof {
                    assert(self@.phrases[i as int].keywords == strings_view(
                        self.phrases@[i as int].keywords@,
                    ));
                }
                return false;
            }
            texts.push(self.phrases[i].text.clone());
            i = i + 1;
        }
        proof {
            assert(strings_view(texts@) =~= self@.texts());
        }
        strings_distinct(&texts)
    }
}

impl GuildMeta {
    /// What is saved of the guild: phrases with their keywords, channels and
    /// settings.
    pub fn snapshot(&self) -> (r: Snapshot)
        ensures
            r@ == self@.snapshot(),
    {
        let mut phrases: Vec<PhraseRecord> = Vec::new();
        let mut i: usize = 0;
        while i < self.phrases.len()
            invariant
                0 <= i <= self.phrases.len(),
                phrases@.len() == i,
                forall|j: int| 0 <= j < i ==> (#[trigger] phrases@[j])@.text == self.phrases@[j].text@
                    && phrases@[j]@.keywords == self@.phrases[j].keywords,
            decreases self.phrases.len() - i,
        {
            let p = &self.phrases[i];
            phrases.push(PhraseRecord { text: p.text.clone(), keywords: clone_strings(&p.keywords) });
            i = i + 1;
        }
        let r = Snapshot { phrases, channels: self.channels.clone(), config: self.config };
        proof {
            assert(r@.phrases =~= self@.snapshot().phrases);
            assert(r@.channels =~= self@.channels);
        }
        r
    }

    /// Loads a saved guild, with cooldowns cleared; an invalid snapshot is
    /// refused.
    pub fn restore(s: &Snapshot) -> (r: Result<GuildMeta, SnapshotError>)
        ensures
            r is Ok <==> s@.valid(),
            r matches Ok(g) ==> g@ == s@.restored() && g@.wf(),
    {
        if !s.is_valid() {
            return Err(SnapshotError::Invalid);
        }
        let mut phrases: Vec<Phrase> = Vec::new();
        let mut i: usize = 0;
        while i < s.phrases.len()
            invariant
                0 <= i <= s.phrases.len(),
                phrases@.len() == i,
                forall|j: int| 0 <= j < i ==> (#[trigger] phrases@[j])@ == (PhraseModel {
                    text: s@.phrases[j].text,
                    keywords: s@.phrases[j].keywords,
                    last_used: None,
                }),
            decreases s.phrases.len() - i,
        {
            let p = &s.phrases[i];
            phrases.push(Phrase { text: p.text.clone(), keywords: clone_strings(&p.keywords), last_used: None });
            i = i + 1;
        }
        let g = GuildMeta {
            last_response: None,
            phrases,
            channels: s.channels.clone(),
            config: s.config,
        };
        proof {
            assert(g@.phrases =~= s@.restored().phrases);
            assert(g@.channels =~= s@.channels);
            assert(g@.texts() =~= s@.texts());
            assert forall|j: int| 0 <= j < g@.phrases.len() implies (#[trigger] g@.phrases[j]).keywords.no_duplicates() by {
                assert(g@.phrases[j].keywords == s@.phrases[j].keywords);
            }
        }
        Ok(g)
    }
}

/// What ron reads from `text` as a list of strings, or none when `text` is
/// not one.
pub uninterp spec fn ron_string_list(text: Seq<char>) -> Option<Seq<Seq<char>>>;

/// Relies on ron::de::from_str::<Vec<String>>: reads a RON sequence of
/// strings, or fails; the outcome depends on the text alone.
#[verifier::external_body]
fn parse_string_list(text: &str) -> (r: Option<Vec<String>>)
    ensures
        r matches Some(v) ==> ron_string_list(text@) == Some(strings_view(v@)),
        r is None ==> ron_string_list(text@) is None,
{
    ron::de::from_str::<Vec<String>>(text).ok()
}

impl GuildMeta {
    /// Registers, without keywords, every phrase of a RON list of strings;
    /// says whether the text was such a list. Text that is not leaves the
    /// guild unchanged.
    pub fn load_phrases(&mut self, text: &str) -> (r: bool)
        requires
            old(self)@.wf(),
        ensures
            r == ron_string_list(text@) is Some,
            match ron_string_list(text@) {
                Some(list) => final(self)@ == old(self)@.with_plain_phrases(list),
                None => final(self)@ == old(self)@,
            },
            final(self)@.wf(),
    {
        match parse_string_list(text) {
            Some(list) => {
                self.add_plain_phrases(list);
                true
            },
            None => false,
        }
    }
}

} // verus!
