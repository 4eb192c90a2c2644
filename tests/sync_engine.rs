use playlist_sync::ledger::{title_key_of, Entry, Ledger, LedgerError};
use playlist_sync::snapshot::{decide_snapshot, DiffStats, SnapshotError};
use playlist_sync::sync::{Fetched, Playlist, PlaylistConfig, SyncError};

fn entry(id: &str, title: &str) -> Entry {
    Entry { id: id.to_string(), title: title.to_string(), uploader: None, position: None }
}

fn config(name: &str, tag: &str) -> PlaylistConfig {
    PlaylistConfig {
        name: name.to_string(),
        url: format!("https://example.com/list/{}", name),
        directory: format!("music/{}", name),
        ledger_file: "playlist.ini".to_string(),
        tool_path: "youtube-dl".to_string(),
        socket_timeout: 15,
        archive_tag: tag.to_string(),
    }
}

fn start(name: &str, text: Option<String>, fetched: Result<Fetched, String>) -> Result<Playlist, SyncError> {
    let cfg = config(name, "yt");
    let ledger = Playlist::load_ledger(&cfg, text)?;
    Playlist::new(cfg, ledger, fetched)
}

fn sync_once(name: &str, text: Option<String>, entries: Vec<Entry>) -> (Playlist, Option<String>) {
    let mut p = match start(name, text, Ok(Fetched::Collection(entries))) {
        Ok(p) => p,
        Err(_) => panic!("sync failed"),
    };
    let report = p.save();
    (p, report.ledger_text)
}

#[test]
fn jazz_only_new_entry_is_downloaded_and_recorded() {
    let text = "[contents]\n\"Old One\"\n\"Old Two\"\n[archive]\nyt 111\nyt 222\n".to_string();
    let entries = vec![entry("111", "Old One"), entry("222", "Old Two"), entry("333", "New Song")];
    let mut p = match start("jazz", Some(text), Ok(Fetched::Collection(entries))) {
        Ok(p) => p,
        Err(_) => panic!("sync failed"),
    };
    assert_eq!(p.new_entry_count(), 1);
    assert!(p.ledger().contains_id("333"));
    assert!(p.ledger().contains_title("New Song"));
    let d = p.download().expect("a download is owed");
    assert_eq!(d.url, "https://example.com/list/jazz");
    assert_eq!(d.archive_file, "playlist.ini");
    assert_eq!(d.socket_timeout, 15);
    assert_eq!(d.output_pattern, "%(title)s.%(ext)s");
    assert_eq!(d.directory, "music/jazz");
    assert_eq!(d.tool_path, "youtube-dl");
    let report = p.save();
    assert!(report.ledger_changed);
    let written = report.ledger_text.expect("the ledger is flushed");
    assert!(written.contains("yt 333"));
    assert!(written.contains("New Song"));
    assert!(written.contains("yt 111"));
    assert!(written.contains("yt 222"));
    let reloaded = match Ledger::load("yt", Some(written)) {
        Ok(l) => l,
        Err(_) => panic!("the rewrite parses"),
    };
    for id in ["111", "222", "333"] {
        assert!(reloaded.contains_id(id));
    }
    assert!(reloaded.contains_title("Old One"));
    assert!(reloaded.contains_title("New Song"));
}

#[test]
fn empty_fetch_with_existing_ledger_does_nothing() {
    let text = "[archive]\nyt 111\n".to_string();
    let (p, written) = sync_once("jazz", Some(text), vec![]);
    assert_eq!(p.new_entry_count(), 0);
    assert!(p.download().is_none());
    assert!(written.is_none());
    assert!(p.ledger().contains_id("111"));
}

#[test]
fn second_sync_of_same_list_writes_and_downloads_nothing() {
    let list = vec![entry("a1", "First"), entry("b2", "Second")];
    let (p1, written) = sync_once("rock", None, list);
    assert_eq!(p1.new_entry_count(), 2);
    let written = written.expect("first sync writes");
    let list = vec![entry("a1", "First"), entry("b2", "Second")];
    let (p2, again) = sync_once("rock", Some(written), list);
    assert_eq!(p2.new_entry_count(), 0);
    let d = p2.download().expect("the tool runs and skips what is archived");
    assert_eq!(d.archive_file, "playlist.ini");
    assert!(again.is_none());
}

#[test]
fn archive_grows_with_distinct_ids_over_runs() {
    let (p1, t1) = sync_once("mix", None, vec![entry("1", "One"), entry("2", "Two")]);
    assert_eq!(p1.new_entry_count(), 2);
    let (p2, t2) = sync_once("mix", t1, vec![entry("2", "Two"), entry("3", "Three"), entry("3", "Three")]);
    assert_eq!(p2.new_entry_count(), 1);
    let (p3, t3) = sync_once("mix", t2, vec![entry("1", "One")]);
    assert_eq!(p3.new_entry_count(), 0);
    assert!(t3.is_none());
    for id in ["1", "2", "3"] {
        assert!(p3.ledger().contains_id(id));
    }
    assert!(!p3.ledger().contains_id("4"));
}

#[test]
fn recording_a_known_entry_leaves_ledger_clean() {
    let mut l = match Ledger::load("yt", Some("[archive]\nyt 7\n".to_string())) {
        Ok(l) => l,
        Err(_) => panic!("parses"),
    };
    assert!(!l.record(&entry("7", "Seven")));
    assert!(l.flush().is_none());
    assert!(!l.contains_title("Seven"));
    assert!(l.record(&entry("8", "Eight")));
    assert!(!l.record(&entry("8", "Eight again")));
    assert!(l.flush().is_some());
    assert!(l.flush().is_none());
}

#[test]
fn empty_title_is_recorded() {
    let mut l = Ledger::new("yt");
    assert!(!l.contains_title(""));
    assert!(l.record(&entry("x", "")));
    assert!(l.contains_id("x"));
    assert!(l.contains_title(""));
    let text = l.flush().expect("changed");
    let reloaded = match Ledger::load("yt", Some(text)) {
        Ok(l) => l,
        Err(_) => panic!("the rewrite parses"),
    };
    assert!(reloaded.contains_title(""));
    assert!(!l.contains_id("y"));
}

#[test]
fn marker_joins_tag_and_id() {
    let l = Ledger::new("youtube");
    assert_eq!(l.marker_of("dQw4"), "youtube dQw4");
}

#[test]
fn unknown_sections_survive_rewrite() {
    let text = "[notes]\nkeep me\nsetting=on\n[archive]\nyt 1\n".to_string();
    let (_, written) = sync_once("misc", Some(text), vec![entry("2", "Two")]);
    let written = written.expect("changed");
    assert!(written.contains("[notes]"));
    assert!(written.contains("keep me"));
    assert!(written.contains("setting=on"));
}

#[test]
fn malformed_ledger_is_a_parse_error() {
    assert!(matches!(Ledger::load("yt", Some("[archive\nyt 1\n".to_string())), Err(LedgerError::Parse(_))));
    let r = Playlist::load_ledger(&config("bad", "yt"), Some("=novalue\n".to_string()));
    assert!(matches!(r, Err(SyncError::Parse(_))));
}

#[test]
fn single_item_is_a_fetch_error() {
    match start("solo", None, Ok(Fetched::Single)) {
        Err(SyncError::Fetch(m)) => assert_eq!(m, "solo is not a playlist"),
        _ => panic!("expected a fetch error"),
    }
}

#[test]
fn failed_listing_is_a_fetch_error() {
    let r = start("net", None, Err("timed out".to_string()));
    assert!(matches!(r, Err(SyncError::Fetch(ref m)) if m == "net: timed out"));
}

#[test]
fn first_run_always_snapshots() {
    assert!(matches!(decide_snapshot(None), Ok(true)));
}

#[test]
fn empty_diff_with_tip_skips_snapshot() {
    let s = DiffStats { files_changed: 0, insertions: 0, deletions: 0 };
    assert!(!s.has_changes());
    assert!(matches!(decide_snapshot(Some(Ok(s))), Ok(false)));
}

#[test]
fn any_change_with_tip_snapshots() {
    for s in [
        DiffStats { files_changed: 1, insertions: 0, deletions: 0 },
        DiffStats { files_changed: 0, insertions: 3, deletions: 0 },
        DiffStats { files_changed: 0, insertions: 0, deletions: 2 },
        DiffStats { files_changed: usize::MAX, insertions: usize::MAX, deletions: usize::MAX },
    ] {
        assert!(matches!(decide_snapshot(Some(Ok(s))), Ok(true)));
    }
}

#[test]
fn failed_diff_is_a_snapshot_error() {
    let r = decide_snapshot(Some(Err("corrupt".to_string())));
    assert!(matches!(r, Err(SnapshotError::Diff(ref e)) if e == "corrupt"));
}

#[test]
fn second_playlist_failure_leaves_others_synced() {
    let outcomes = vec![
        start("one", None, Ok(Fetched::Collection(vec![entry("a", "A")]))),
        start("two", None, Err("fetch failed".to_string())),
        start("three", None, Ok(Fetched::Collection(vec![entry("c", "C")]))),
    ];
    let mut written = 0;
    let mut failed = 0;
    for outcome in outcomes {
        match outcome {
            Ok(mut p) => {
                assert!(p.download().is_some());
                if p.save().ledger_text.is_some() {
                    written += 1;
                }
            }
            Err(SyncError::Fetch(m)) => {
                assert_eq!(m, "two: fetch failed");
                failed += 1
            }
            Err(_) => panic!("unexpected error"),
        }
    }
    assert_eq!(written, 2);
    assert_eq!(failed, 1);
    let stats = DiffStats { files_changed: 2, insertions: 4, deletions: 0 };
    assert!(matches!(decide_snapshot(Some(Ok(stats))), Ok(true)));
}

#[test]
fn flushed_text_reloads_to_the_same_ledger() {
    let text = "[notes]\nkeep me\n[contents]\n\"Old\"\n[archive]\nyt 1\n".to_string();
    let (p, written) = sync_once("loop", Some(text), vec![entry("2", "Two"), entry("3", "Three")]);
    let written = written.expect("changed");
    let reloaded = match Ledger::load("yt", Some(written)) {
        Ok(l) => l,
        Err(_) => panic!("the rewrite parses"),
    };
    for id in ["1", "2", "3"] {
        assert!(reloaded.contains_id(id));
        assert!(p.ledger().contains_id(id));
    }
    for title in ["Old", "Two", "Three"] {
        assert!(reloaded.contains_title(title));
    }
    assert!(!reloaded.contains_id("4"));
}

#[test]
fn malformed_ledger_stops_before_the_listing_is_used() {
    let cfg = config("broken", "yt");
    assert!(matches!(Playlist::load_ledger(&cfg, Some("[contents\n".to_string())), Err(SyncError::Parse(_))));
    assert!(Playlist::load_ledger(&cfg, None).is_ok());
}

#[test]
fn title_keys_escape_ini_syntax() {
    assert_eq!(title_key_of("New Song"), "\"New Song\"");
    assert_eq!(title_key_of(""), "\"\"");
    assert_eq!(title_key_of("Song #1"), "\"Song %231\"");
    assert_eq!(title_key_of("[MV] a=b: c; 100%"), "\"%5BMV%5D a%3Db%3A c%3B 100%25\"");
    assert_eq!(title_key_of("two\nlines\r"), "\"two%0Alines%0D\"");
}

#[test]
fn awkward_titles_survive_a_reload() {
    let titles = ["Song #1", "[MV] x", "[Live", "a=b:c;d", " padded ", "", "100%"];
    let entries: Vec<Entry> = titles
        .iter()
        .enumerate()
        .map(|(i, t)| entry(&format!("id{}", i), t))
        .collect();
    let (_, written) = sync_once("odd", None, entries);
    let reloaded = match Ledger::load("yt", written) {
        Ok(l) => l,
        Err(_) => panic!("the rewrite parses"),
    };
    for (i, t) in titles.iter().enumerate() {
        assert!(reloaded.contains_title(t));
        assert!(reloaded.contains_id(&format!("id{}", i)));
    }
    assert!(!reloaded.contains_title("Song"));
}
