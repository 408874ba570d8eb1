use vstd::prelude::*;

use crate::config::Config;

verus! {

/// The characters of each string, in order.
pub open spec fn strings_view(v: Seq<String>) -> Seq<Seq<char>> {
    v.map_values(|s: String| s@)
}

/// `s` with every repeated item dropped after its first occurrence.
pub open spec fn dedup(s: Seq<Seq<char>>) -> Seq<Seq<char>>
    decreases s.len(),
{
    if s.len() == 0 {
        s
    } else {
        let d = dedup(s.drop_last());
        if d.contains(s.last()) {
            d
        } else {
            d.push(s.last())
        }
    }
}

/// `dedup` keeps each item of `s` once and adds none.
pub proof fn lemma_dedup(s: Seq<Seq<char>>)
    ensures
        dedup(s).no_duplicates(),
        forall|x: Seq<char>| dedup(s).contains(x) <==> s.contains(x),
    decreases s.len(),
{
    if s.len() > 0 {
        let init = s.drop_last();
        lemma_dedup(init);
        assert forall|x: Seq<char>| dedup(s).contains(x) <==> s.contains(x) by {
            if s.contains(x) && x != s.last() {
                let i = choose|i: int| 0 <= i < s.len() && s[i] == x;
                assert(init[i] == x);
            }
            if init.contains(x) {
                let i = choose|i: int| 0 <= i < init.len() && init[i] == x;
                assert(s[i] == x);
            }
            if dedup(s).contains(x) && !dedup(init).contains(x) {
                assert(x == s.last());
                assert(s[s.len() - 1] == x);
            }
            if x == s.last() {
                assert(s[s.len() - 1] == x);
                if !dedup(init).contains(x) {
                    assert(dedup(s)[dedup(s).len() - 1] == x);
                }
            }
            if dedup(init).contains(x) {
                let i = choose|i: int| 0 <= i < dedup(init).len() && dedup(init)[i] == x;
                assert(dedup(s)[i] == x);
            }
        }
    }
}

/// A registered phrase as the contracts see it.
pub struct PhraseModel {
    pub text: Seq<char>,
    pub keywords: Seq<Seq<char>>,
    pub last_used: Option<u64>,
}

/// A registered phrase: its text, the keywords it is matched by (none: it
/// is matched by its text), and when it was last sent, if ever.
pub struct Phrase {
    pub text: String,
    pub keywords: Vec<String>,
    pub last_used: Option<u64>,
}

impl View for Phrase {
    type V = PhraseModel;

    open spec fn view(&self) -> PhraseModel {
        PhraseModel {
            text: self.text@,
            keywords: strings_view(self.keywords@),
            last_used: self.last_used,
        }
    }
}

/// The state of one guild as the contracts see it.
pub struct GuildModel {
    pub last_response: Option<u64>,
    pub phrases: Seq<PhraseModel>,
    pub channels: Seq<u64>,
    pub config: Config,
}

impl GuildModel {
    pub open spec fn texts(self) -> Seq<Seq<char>> {
        self.phrases.map_values(|p: PhraseModel| p.text)
    }

    /// Phrase texts are unique, keywords are unique within a phrase, channels
    /// are unique, and the configuration is in bounds.
    pub open spec fn wf(self) -> bool {
        &&& self.texts().no_duplicates()
        &&& forall|i: int|
            0 <= i < self.phrases.len() ==> (#[trigger] self.phrases[i]).keywords.no_duplicates()
        &&& self.channels.no_duplicates()
        &&& self.config.valid()
    }

    /// A freshly observed guild: no phrase, no channel, default settings.
    pub open spec fn initial() -> GuildModel {
        GuildModel {
            last_response: None,
            phrases: Seq::empty(),
            channels: Seq::empty(),
            config: Config::spec_default(),
        }
    }

    pub open spec fn has_phrase(self, text: Seq<char>) -> bool {
        self.texts().contains(text)
    }

    /// Index of the phrase with this text (meaningful when there is one).
    pub open spec fn phrase_index(self, text: Seq<char>) -> int {
        self.texts().index_of(text)
    }

    /// The catalog after registering `text` with `keywords`: a known phrase
    /// gets the new keywords and keeps its cooldown; a new one is appended.
    pub open spec fn with_phrase(self, text: Seq<char>, keywords: Seq<Seq<char>>) -> GuildModel {
        if self.has_phrase(text) {
            let i = self.phrase_index(text);
            GuildModel {
                phrases: self.phrases.update(
                    i,
                    PhraseModel { keywords: dedup(keywords), ..self.phrases[i] },
                ),
                ..self
            }
        } else {
            GuildModel {
                phrases: self.phrases.push(
                    PhraseModel { text, keywords: dedup(keywords), last_used: None },
                ),
                ..self
            }
        }
    }

    /// The catalog without the phrase `text`, whose cooldown goes with it.
    pub open spec fn without_phrase(self, text: Seq<char>) -> GuildModel {
        if self.has_phrase(text) {
            GuildModel { phrases: self.phrases.remove(self.phrase_index(text)), ..self }
        } else {
            self
        }
    }

    /// Each of `texts` registered in turn, without keywords.
    pub open spec fn with_plain_phrases(self, texts: Seq<Seq<char>>) -> GuildModel
        decreases texts.len(),
    {
        if texts.len() == 0 {
            self
        } else {
            self.with_plain_phrases(texts.drop_last()).with_phrase(texts.last(), Seq::empty())
        }
    }

    pub open spec fn with_channel(self, channel: u64) -> GuildModel {
        if self.channels.contains(channel) {
            self
        } else {
            GuildModel { channels: self.channels.push(channel), ..self }
        }
    }

    pub open spec fn without_channel(self, channel: u64) -> GuildModel {
        if self.channels.contains(channel) {
            GuildModel {
                channels: self.channels.remove(self.channels.index_of(channel)),
                ..self
            }
        } else {
            self
        }
    }
}

/// Dropping an item keeps a sequence free of duplicates.
pub proof fn lemma_remove_no_duplicates<A>(s: Seq<A>, i: int)
    requires
        s.no_duplicates(),
        0 <= i < s.len(),
    ensures
        s.remove(i).no_duplicates(),
        forall|x: A| s.remove(i).contains(x) <==> (s.contains(x) && x != s[i]),
{
    let r = s.remove(i);
    assert forall|a: int, b: int| 0 <= a < r.len() && 0 <= b < r.len() && a != b implies r[a]
        != r[b] by {
        let sa = if a < i {
            a
        } else {
            a + 1
        };
        let sb = if b < i {
            b
        } else {
            b + 1
        };
        assert(r[a] == s[sa] && r[b] == s[sb]);
    }
    assert forall|x: A| r.contains(x) <==> (s.contains(x) && x != s[i]) by {
        if r.contains(x) {
            let a = choose|a: int| 0 <= a < r.len() && r[a] == x;
            let sa = if a < i {
                a
            } else {
                a + 1
            };
            assert(s[sa] == x);
        }
        if s.contains(x) && x != s[i] {
            let a = choose|a: int| 0 <= a < s.len() && s[a] == x;
            if a < i {
                assert(r[a] == x);
            } else {
                assert(r[a - 1] == x);
            }
        }
    }
}

/// The state of one guild: its phrases (each with its own cooldown), the
/// channels it answers in, its settings and when it last answered.
pub struct GuildMeta {
    pub last_response: Option<u64>,
    pub phrases: Vec<Phrase>,
    pub channels: Vec<u64>,
    pub config: Config,
}

impl View for GuildMeta {
    type V = GuildModel;

    open spec fn view(&self) -> GuildModel {
        GuildModel {
            last_response: self.last_response,
            phrases: self.phrases@.map_values(|p: Phrase| p@),
            channels: self.channels@,
            config: self.config,
        }
    }
}

/// Copies a list of strings.
pub fn clone_strings(v: &Vec<String>) -> (r: Vec<String>)
    ensures
        strings_view(r@) == strings_view(v@),
{
    let mut r: Vec<String> = Vec::new();
    let mut i: usize = 0;
    while i < v.len()
        invariant
            0 <= i <= v.len(),
            r@.len() == i,
            forall|j: int| 0 <= j < i ==> r@[j]@ == v@[j]@,
        decreases v.len() - i,
    {
        r.push(v[i].clone());
        i = i + 1;
    }
    proof {
        assert(strings_view(r@) =~= strings_view(v@));
    }
    r
}

/// Whether `s` occurs in `v`.
pub fn contains_string(v: &Vec<String>, s: &String) -> (r: bool)
    ensures
        r == strings_view(v@).contains(s@),
{
    let mut i: usize = 0;
    while i < v.len()
        invariant
            0 <= i <= v.len(),
            forall|j: int| 0 <= j < i ==> v@[j]@ != s@,
        decreases v.len() - i,
    {
        if v[i] == *s {
            proof {
                assert(strings_view(v@)[i as int] == s@);
            }
            return true;
        }
        i = i + 1;
    }
    proof {
        if strings_view(v@).contains(s@) {
            let j = choose|j: int| 0 <= j < v.len() && strings_view(v@)[j] == s@;
            assert(v@[j]@ == s@);
        }
    }
    false
}

/// The keywords of `keywords`, each kept once, in order of first occurrence.
pub fn dedup_strings(keywords: Vec<String>) -> (r: Vec<String>)
    ensures
        strings_view(r@) == dedup(strings_view(keywords@)),
{
    let ghost kv = strings_view(keywords@);
    let mut r: Vec<String> = Vec::new();
    let mut i: usize = 0;
    proof {
        assert(kv.take(0) =~= Seq::<Seq<char>>::empty());
    }
    while i < keywords.len()
        invariant
            0 <= i <= keywords.len(),
            kv == strings_view(keywords@),
            strings_view(r@) == dedup(kv.take(i as int)),
        decreases keywords.len() - i,
    {
        let k = &keywords[i];
        proof {
            assert(kv.take(i + 1).drop_last() =~= kv.take(i as int));
            assert(kv.take(i + 1).last() == k@);
        }
        if !contains_string(&r, k) {
            r.push(k.clone());
            proof {
                assert(strings_view(r@) =~= dedup(kv.take(i + 1)));
            }
        }
        i = i + 1;
    }
    proof {
        assert(kv.take(keywords.len() as int) =~= kv);
    }
    r
}

impl GuildMeta {
    /// A guild seen for the first time: no phrase, no channel, default
    /// settings, never answered.
    pub fn new() -> (r: GuildMeta)
        ensures
            r@ == GuildModel::initial(),
            r@.wf(),
    {
        let r = GuildMeta {
            last_response: None,
            phrases: Vec::new(),
            channels: Vec::new(),
            config: Config::default(),
        };
        proof {
            assert(r@.phrases =~= Seq::<PhraseModel>::empty());
        }
        r
    }

    /// Index of the phrase whose text is `text`, if there is one.
    pub fn find_phrase(&self, text: &String) -> (r: Option<usize>)
        requires
            self@.wf(),
        ensures
            r is None <==> !self@.has_phrase(text@),
            r matches Some(i) ==> i == self@.phrase_index(text@) && i < self@.phrases.len(),
    {
        let mut i: usize = 0;
        while i < self.phrases.len()
            invariant
                0 <= i <= self.phrases.len(),
                self@.wf(),
                forall|j: int| 0 <= j < i ==> self.phrases@[j].text@ != text@,
            decreases self.phrases.len() - i,
        {
            if self.phrases[i].text == *text {
                proof {
                    let t = self@.texts();
                    assert(t[i as int] == text@);
                    assert(t.contains(text@));
                    let k = t.index_of(text@);
                    assert(t[k] == text@);
                    assert(k == i);
                }
                return Some(i);
            }
            i = i + 1;
        }
        proof {
            if self@.has_phrase(text@) {
                let j = choose|j: int| 0 <= j < self@.texts().len() && self@.texts()[j] == text@;
                assert(self.phrases@[j].text@ == text@);
            }
        }
        None
    }

    /// Registers `text` with `keywords` (each kept once); an already known
    /// phrase gets the new keywords and keeps its cooldown.
    pub fn add_phrase(&mut self, text: String, keywords: Vec<String>)
        requires
            old(self)@.wf(),
        ensures
            final(self)@ == old(self)@.with_phrase(text@, strings_view(keywords@)),
            final(self)@.wf(),
    {
        let ghost before = self@;
        proof {
            lemma_dedup(strings_view(keywords@));
        }
        let kws = dedup_strings(keywords);
        match self.find_phrase(&text) {
            Some(i) => {
                let mut p = self.phrases.remove(i);
                p.keywords = kws;
                self.phrases.insert(i, p);
                proof {
                    assert(self@.phrases =~= before.with_phrase(text@, strings_view(keywords@)).phrases);
                    assert(self@.texts() =~= before.texts());
                }
            },
            None => {
                self.phrases.push(Phrase { text, keywords: kws, last_used: None });
                proof {
                    assert(self@.phrases =~= before.with_phrase(text@, strings_view(keywords@)).phrases);
                    assert(self@.texts() =~= before.texts().push(text@));
                    assert forall|a: int, b: int|
                        0 <= a < self@.texts().len() && 0 <= b < self@.texts().len() && a != b
                        implies self@.texts()[a] != self@.texts()[b] by {
                        let n = before.texts().len();
                        if a == n {
                            assert(self@.texts()[b] == before.texts()[b]);
                        } else if b == n {
                            assert(self@.texts()[a] == before.texts()[a]);
                        } else {
                            assert(self@.texts()[a] == before.texts()[a]);
                            assert(self@.texts()[b] == before.texts()[b]);
                        }
                    }
                }
            },
        }
    }

    /// Removes the phrase `text` together with its cooldown; says whether it
    /// was there. A phrase that was not there leaves the catalog unchanged.
    pub fn remove_phrase(&mut self, text: &String) -> (existed: bool)
        requires
            old(self)@.wf(),
        ensures
            existed == old(self)@.has_phrase(text@),
            final(self)@ == old(self)@.without_phrase(text@),
            !existed ==> final(self)@ == old(self)@,
            final(self)@.wf(),
            !final(self)@.has_phrase(text@),
    {
        let ghost before = self@;
        match self.find_phrase(text) {
            Some(i) => {
                self.phrases.remove(i);
                proof {
                    assert(self@.phrases =~= before.phrases.remove(i as int));
                    assert(self@.texts() =~= before.texts().remove(i as int));
                    lemma_remove_no_duplicates(before.texts(), i as int);
                    assert(self@ == before.without_phrase(text@));
                }
                true
            },
            None => false,
        }
    }

    /// Registers each of `texts` in turn without keywords; a known phrase
    /// loses its keywords.
    pub fn add_plain_phrases(&mut self, texts: Vec<String>)
        requires
            old(self)@.wf(),
        ensures
            final(self)@ == old(self)@.with_plain_phrases(strings_view(texts@)),
            final(self)@.wf(),
    {
        let ghost before = self@;
        let ghost tv = strings_view(texts@);
        let mut i: usize = 0;
        proof {
            assert(tv.take(0) =~= Seq::<Seq<char>>::empty());
        }
        while i < texts.len()
            invariant
                0 <= i <= texts.len(),
                tv == strings_view(texts@),
                self@ == before.with_plain_phrases(tv.take(i as int)),
                self@.wf(),
            decreases texts.len() - i,
        {
            proof {
                assert(tv.take(i + 1).drop_last() =~= tv.take(i as int));
                assert(tv.take(i + 1).last() == texts@[i as int]@);
            }
            let none: Vec<String> = Vec::new();
            proof {
                assert(strings_view(none@) =~= Seq::<Seq<char>>::empty());
            }
            self.add_phrase(texts[i].clone(), none);
            i = i + 1;
        }
        proof {
            assert(tv.take(texts.len() as int) =~= tv);
        }
    }

    /// Whether the guild answers in `channel`.
    pub fn has_channel(&self, channel: u64) -> (r: bool)
        ensures
            r == self@.channels.contains(channel),
    {
        self.channel_index(channel).is_some()
    }

    fn channel_index(&self, channel: u64) -> (r: Option<usize>)
        ensures
            r is None <==> !self@.channels.contains(channel),
            r matches Some(i) ==> i < self@.channels.len() && self@.channels[i as int] == channel,
    {
        let mut i: usize = 0;
        while i < self.channels.len()
            invariant
                0 <= i <= self.channels.len(),
                forall|j: int| 0 <= j < i ==> self.channels@[j] != channel,
            decreases self.channels.len() - i,
        {
            if self.channels[i] == channel {
                return Some(i);
            }
            i = i + 1;
        }
        None
    }

    /// Lets the guild answer in `channel`.
    pub fn add_channel(&mut self, channel: u64)
        requires
            old(self)@.wf(),
        ensures
            final(self)@ == old(self)@.with_channel(channel),
            final(self)@.channels.contains(channel),
            final(self)@.wf(),
    {
        if self.channel_index(channel).is_none() {
            self.channels.push(channel);
            proof {
                assert(self@.channels[self@.channels.len() - 1] == channel);
            }
        }
    }

    /// Stops the guild from answering in `channel`.
    pub fn remove_channel(&mut self, channel: u64)
        requires
            old(self)@.wf(),
        ensures
            final(self)@ == old(self)@.without_channel(channel),
            !final(self)@.channels.contains(channel),
            final(self)@.wf(),
    {
        let ghost before = self@;
        match self.channel_index(channel) {
            Some(i) => {
                self.channels.remove(i);
                proof {
                    lemma_remove_no_duplicates(before.channels, i as int);
                    let k = before.channels.index_of(channel);
                    assert(before.channels[k] == channel);
                    assert(k == i);
                }
            },
            None => {},
        }
    }

    /// Replaces the settings; a chance above 100 is refused and changes
    /// nothing.
    pub fn set_config(&mut self, config: Config) -> (r: Result<(), ConfigError>)
        requires
            old(self)@.wf(),
        ensures
            r is Ok <==> config.valid(),
            r is Ok ==> final(self)@ == (GuildModel { config, ..old(self)@ }),
            r is Err ==> final(self)@ == old(self)@,
            final(self)@.wf(),
    {
        if config.is_valid() {
            self.config = config;
            Ok(())
        } else {
            Err(ConfigError::ChanceOutOfRange)
        }
    }
}

impl Default for GuildMeta {
    fn default() -> (r: GuildMeta)
        ensures
            r@ == GuildModel::initial(),
            r@.wf(),
    {
        GuildMeta::new()
    }
}

/// Why a configuration was refused.
#[derive(Clone, Copy, Debug, PartialEq, Eq, Structural)]
pub enum ConfigError {
    /// The trigger chance is above 100 percent.
    ChanceOutOfRange,
}

} // verus!
