use catchphrase::files::guild_of_saved_file;
use catchphrase::config::Config;
use catchphrase::context::{build_context, merge_history, window_of};
use catchphrase::dispatch::{document, join_keywords, triggered};
use catchphrase::guild::{GuildMeta, Phrase};
use catchphrase::oracle::{best_of, choose_document, ScoredDocument};
use catchphrase::persist::{PhraseRecord, Snapshot, SnapshotError};
use catchphrase::guild::ConfigError;

fn s(x: &str) -> String {
    x.to_string()
}

fn strings(xs: &[&str]) -> Vec<String> {
    xs.iter().map(|x| x.to_string()).collect()
}

fn scored(document: usize, score: i64) -> ScoredDocument {
    ScoredDocument { document, score_millis: score * 1000 }
}

fn guild_with(phrases: &[&str], channel: u64) -> GuildMeta {
    let mut g = GuildMeta::new();
    for p in phrases {
        g.add_phrase(s(p), Vec::new());
    }
    g.add_channel(channel);
    g
}

#[test]
fn winning_phrase_is_best_scored_above_minimum() {
    let mut g = guild_with(&["hello world", "goodbye"], 7);
    let mut c = g.config;
    c.minimum_score = 20;
    g.set_config(c).unwrap();
    let results = vec![scored(0, 15), scored(1, 30)];
    assert_eq!(g.conclude(&results, 1000), Some(s("goodbye")));
    assert_eq!(g.phrases[1].last_used, Some(1000));
    assert_eq!(g.last_response, Some(1000));

    let mut g = guild_with(&["hello world", "goodbye"], 7);
    c.minimum_score = 35;
    g.set_config(c).unwrap();
    assert_eq!(g.conclude(&results, 1000), None);
    assert_eq!(g.last_response, None);
    assert_eq!(g.phrases[1].last_used, None);
}

#[test]
fn second_message_within_cooldown_is_suppressed() {
    let mut g = guild_with(&["hello world", "goodbye"], 7);
    let mut c = g.config;
    c.cooldown = 60;
    c.chance = 100;
    g.set_config(c).unwrap();
    assert!(g.begin_with_draw(7, false, 100, 50));
    assert_eq!(g.conclude(&vec![scored(1, 30)], 100), Some(s("goodbye")));
    for draw in 0..=100u8 {
        assert!(!g.begin_with_draw(7, false, 101, draw));
    }
    assert!(!g.begin(7, false, 101));
    assert!(!g.admits(7, false, 159));
    assert!(g.admits(7, false, 160));
}

#[test]
fn removing_missing_phrase_reports_and_keeps_catalog() {
    let mut g = guild_with(&["hello world", "goodbye"], 7);
    let before: Vec<String> = g.phrases.iter().map(|p| p.text.clone()).collect();
    assert!(!g.remove_phrase(&s("absent")));
    let after: Vec<String> = g.phrases.iter().map(|p| p.text.clone()).collect();
    assert_eq!(before, after);
    assert!(g.remove_phrase(&s("goodbye")));
    assert_eq!(g.phrases.len(), 1);
    assert_eq!(g.find_phrase(&s("goodbye")), None);
    assert_eq!(g.find_phrase(&s("hello world")), Some(0));
}

#[test]
fn zero_chance_never_triggers() {
    let mut g = guild_with(&["a"], 1);
    let mut c = g.config;
    c.chance = 0;
    g.set_config(c).unwrap();
    for draw in 0..=100u8 {
        assert!(!g.begin_with_draw(1, false, 10, draw));
    }
    for _ in 0..200 {
        assert!(!g.begin(1, false, 10));
    }
}

#[test]
fn full_chance_always_triggers_eligible_messages() {
    let mut g = guild_with(&["a"], 1);
    let mut c = g.config;
    c.chance = 100;
    g.set_config(c).unwrap();
    for draw in 0..=100u8 {
        assert!(g.begin_with_draw(1, false, 10, draw));
    }
    for _ in 0..200 {
        assert!(g.begin(1, false, 10));
    }
    // not eligible: other channel, own message
    assert!(!g.begin(2, false, 10));
    assert!(!g.begin(1, true, 10));
}

#[test]
fn trigger_rule() {
    assert!(!triggered(0, 0));
    assert!(triggered(25, 25));
    assert!(!triggered(25, 26));
    assert!(triggered(100, 100));
    assert!(triggered(1, 0));
}

#[test]
fn merge_puts_history_in_chronological_order() {
    let history = strings(&["newest", "middle", "oldest"]);
    assert_eq!(merge_history(&history), s("oldest middle newest"));
    assert_eq!(merge_history(&Vec::new()), s(""));
    assert_eq!(merge_history(&strings(&["only"])), s("only"));
}

#[test]
fn window_breaks_at_word_boundaries() {
    assert_eq!(window_of("hello brave new world", 100), s("hello brave new world"));
    assert_eq!(window_of("hello brave new world", 11), s("new world"));
    assert_eq!(window_of("hello brave new world", 9), s("new world"));
    assert_eq!(window_of("hello brave new world", 8), s("world"));
    assert_eq!(window_of("hello brave new world", 0), s(""));
}

#[test]
fn window_degrades_to_suffix_when_no_word_fits() {
    assert_eq!(window_of("abcdefghij", 4), s("ghij"));
    assert_eq!(window_of("one abcdefghij", 3), s("hij"));
    assert_eq!(window_of("x", 1), s("x"));
}

#[test]
fn window_counts_characters_not_bytes() {
    let w = window_of("héllo wörld", 5);
    assert_eq!(w, s("wörld"));
    assert_eq!(w.chars().count(), 5);
}

#[test]
fn context_never_exceeds_budget() {
    let history = strings(&["the quick brown fox", "jumps over", "a lazy dog and more words here"]);
    for budget in 0..80usize {
        let w = build_context(&history, budget);
        assert!(w.chars().count() <= budget);
        if budget >= 1 {
            assert!(!w.is_empty());
        }
    }
    assert_eq!(build_context(&history, 13), s("brown fox"));
    assert_eq!(build_context(&strings(&["the quick brown fox", "jumps over"]), 30), s("jumps over the quick brown fox"));
}

#[test]
fn query_uses_guild_budget_and_documents() {
    let mut g = GuildMeta::new();
    g.add_phrase(s("hello world"), Vec::new());
    g.add_phrase(s("goodbye"), strings(&["bye", "later"]));
    let mut c = g.config;
    c.max_context_len = 10;
    g.set_config(c).unwrap();
    let q = g.query(&strings(&["see you", "good morning everyone"])).unwrap();
    assert_eq!(q.text, s("see you"));
    assert_eq!(q.documents, strings(&["hello world", "bye, later"]));
    assert!(GuildMeta::new().query(&strings(&["anything"])).is_none());
}

#[test]
fn documents_prefer_keywords() {
    let p = Phrase { text: s("text"), keywords: strings(&["a", "b", "c"]), last_used: None };
    assert_eq!(document(&p), s("a, b, c"));
    let p = Phrase { text: s("text"), keywords: Vec::new(), last_used: None };
    assert_eq!(document(&p), s("text"));
    let p = Phrase { text: s("text"), keywords: strings(&[""]), last_used: None };
    assert_eq!(document(&p), s("text"));
    assert_eq!(join_keywords(&strings(&["x"])), s("x"));
}

#[test]
fn first_of_equal_maxima_wins() {
    let results = vec![scored(2, 10), scored(0, 40), scored(1, 40), scored(3, 5)];
    assert_eq!(best_of(&results), 1);
    assert_eq!(choose_document(&results, 20, 4), Some(0));
    assert_eq!(choose_document(&results, 41, 4), None);
    assert_eq!(choose_document(&results, 40, 4), Some(0));
    assert_eq!(choose_document(&Vec::new(), 0, 4), None);
    // an index outside the catalog is dropped
    assert_eq!(choose_document(&vec![scored(9, 50)], 0, 4), None);
}

#[test]
fn phrase_cooldown_blocks_recommit() {
    let mut g = guild_with(&["a", "b"], 1);
    let mut c = g.config;
    c.cooldown = 60;
    g.set_config(c).unwrap();
    assert!(g.try_commit(0, 1000));
    assert!(!g.try_commit(0, 1059));
    assert_eq!(g.phrases[0].last_used, Some(1000));
    assert!(g.try_commit(1, 1001));
    assert!(g.try_commit(0, 1060));
    assert_eq!(g.phrases[0].last_used, Some(1060));
    assert_eq!(g.last_response, Some(1060));
}

#[test]
fn suppressed_response_changes_nothing() {
    let mut g = guild_with(&["a"], 1);
    assert!(g.try_commit(0, 500));
    let results = vec![scored(0, 100)];
    assert_eq!(g.conclude(&results, 510), None);
    assert_eq!(g.last_response, Some(500));
    assert_eq!(g.phrases[0].last_used, Some(500));
}

#[test]
fn add_phrase_dedups_keywords_and_keeps_cooldown() {
    let mut g = GuildMeta::new();
    g.add_phrase(s("p"), strings(&["k", "k", "j"]));
    assert_eq!(g.phrases[0].keywords, strings(&["k", "j"]));
    assert!(g.try_commit(0, 5));
    g.add_phrase(s("p"), strings(&["z"]));
    assert_eq!(g.phrases.len(), 1);
    assert_eq!(g.phrases[0].keywords, strings(&["z"]));
    assert_eq!(g.phrases[0].last_used, Some(5));
}

#[test]
fn channels_behave_as_a_set() {
    let mut g = GuildMeta::new();
    assert!(!g.has_channel(3));
    g.add_channel(3);
    g.add_channel(3);
    assert_eq!(g.channels, vec![3]);
    g.remove_channel(4);
    assert_eq!(g.channels, vec![3]);
    g.remove_channel(3);
    assert!(g.channels.is_empty());
    // no channel enabled: nothing is eligible
    assert!(!g.admits(3, false, 0));
}

#[test]
fn config_defaults_and_bounds() {
    let d = Config::default();
    assert_eq!(d.cooldown, 60);
    assert_eq!(d.chance, 25);
    assert_eq!(d.max_context_len, 512);
    assert_eq!(d.minimum_score, 20);
    let mut g = GuildMeta::new();
    let bad = Config { chance: 101, ..d };
    assert_eq!(g.set_config(bad), Err(ConfigError::ChanceOutOfRange));
    assert_eq!(g.config, d);
    let good = Config { chance: 100, ..d };
    assert_eq!(g.set_config(good), Ok(()));
    assert_eq!(g.config, good);
}

#[test]
fn snapshot_round_trip_clears_cooldowns() {
    let mut g = GuildMeta::new();
    g.add_phrase(s("hello"), strings(&["hi", "hey"]));
    g.add_phrase(s("bye"), Vec::new());
    g.add_channel(11);
    g.add_channel(12);
    let c = Config { chance: 80, cooldown: 5, ..Config::default() };
    g.set_config(c).unwrap();
    assert!(g.try_commit(1, 99));
    let snap = g.snapshot();
    let r = GuildMeta::restore(&snap).unwrap();
    assert_eq!(r.phrases.len(), 2);
    for (a, b) in r.phrases.iter().zip(g.phrases.iter()) {
        assert_eq!(a.text, b.text);
        assert_eq!(a.keywords, b.keywords);
        assert_eq!(a.last_used, None);
    }
    assert_eq!(r.channels, g.channels);
    assert_eq!(r.config, g.config);
    assert_eq!(r.last_response, None);
}

#[test]
fn invalid_snapshots_are_refused() {
    let rec = |t: &str, k: &[&str]| PhraseRecord { text: s(t), keywords: strings(k) };
    let ok = Snapshot { phrases: vec![rec("a", &["x"])], channels: vec![1], config: Config::default() };
    assert!(GuildMeta::restore(&ok).is_ok());
    let dup_phrase = Snapshot { phrases: vec![rec("a", &[]), rec("a", &[])], channels: vec![], config: Config::default() };
    assert_eq!(GuildMeta::restore(&dup_phrase).err(), Some(SnapshotError::Invalid));
    let dup_kw = Snapshot { phrases: vec![rec("a", &["x", "x"])], channels: vec![], config: Config::default() };
    assert_eq!(GuildMeta::restore(&dup_kw).err(), Some(SnapshotError::Invalid));
    let dup_channel = Snapshot { phrases: vec![], channels: vec![2, 2], config: Config::default() };
    assert_eq!(GuildMeta::restore(&dup_channel).err(), Some(SnapshotError::Invalid));
    let bad_config = Snapshot { phrases: vec![], channels: vec![], config: Config { chance: 200, ..Config::default() } };
    assert_eq!(GuildMeta::restore(&bad_config).err(), Some(SnapshotError::Invalid));
}

#[test]
fn load_phrases_reads_ron_list() {
    let mut g = GuildMeta::new();
    g.add_phrase(s("a"), strings(&["kw"]));
    assert!(g.load_phrases("[\"a\", \"b\", \"c\"]"));
    let texts: Vec<String> = g.phrases.iter().map(|p| p.text.clone()).collect();
    assert_eq!(texts, strings(&["a", "b", "c"]));
    assert!(g.phrases[0].keywords.is_empty());
    assert!(!g.load_phrases("not a list"));
    assert_eq!(g.phrases.len(), 3);
}

#[test]
fn saved_file_names_give_guild_ids() {
    assert_eq!(guild_of_saved_file("123.ron"), Some(123));
    assert_eq!(guild_of_saved_file("0.ron"), Some(0));
    assert_eq!(guild_of_saved_file("18446744073709551615.ron"), Some(u64::MAX));
    assert_eq!(guild_of_saved_file("18446744073709551616.ron"), None);
    assert_eq!(guild_of_saved_file(".ron"), None);
    assert_eq!(guild_of_saved_file("12a.ron"), None);
    assert_eq!(guild_of_saved_file("123.txt"), None);
    assert_eq!(guild_of_saved_file("123"), None);
}
