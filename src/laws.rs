use crate::ledger::{
    add_key, archive_section, contents_section, has_key, ini_parse_cs, lemma_title_key_plain, marker, plain_map, plain_name,
    plain_value, title_key,
    section_keys, Entry, IniMap,
};
use crate::sync::sync_model;
use vstd::prelude::*;
use vstd::set_lib::lemma_map_size;

verus! {

/// The archive markers of the entries `es`.
pub open spec fn markers(tag: Seq<char>, es: Seq<Entry>) -> Set<Seq<char>> {
    Set::new(|k: Seq<char>| exists|i: int| 0 <= i < es.len() && k == marker(tag, es[i].id@))
}

/// The ledger map after one sync per entry list of `runs`, in order.
pub open spec fn sync_runs(m: IniMap, tag: Seq<char>, runs: Seq<Seq<Entry>>) -> IniMap
    decreases runs.len(),
{
    if runs.len() == 0 {
        m
    } else {
        sync_model(sync_runs(m, tag, runs.drop_last()), tag, runs.last()).0
    }
}

/// The archive markers of every entry listed in any of `runs`.
pub open spec fn observed(tag: Seq<char>, runs: Seq<Seq<Entry>>) -> Set<Seq<char>> {
    Set::new(
        |k: Seq<char>|
            exists|r: int, i: int|
                0 <= r < runs.len() && 0 <= i < runs[r].len() && k == marker(tag, runs[r][i].id@),
    )
}

proof fn lemma_sections_differ()
    ensures
        archive_section() != contents_section(),
{
    reveal_strlit("archive");
    reveal_strlit("contents");
    assert(archive_section()[0] != contents_section()[0]);
}

proof fn lemma_add_key_keeps(m: IniMap, s: Seq<char>, k: Seq<char>, s2: Seq<char>, k2: Seq<char>)
    requires
        has_key(m, s2, k2),
    ensures
        has_key(add_key(m, s, k), s2, k2),
{
}

proof fn lemma_add_key_section(m: IniMap, s: Seq<char>, k: Seq<char>, s2: Seq<char>)
    ensures
        section_keys(add_key(m, s, k), s2) == if s == s2 {
            section_keys(m, s2).insert(k)
        } else {
            section_keys(m, s2)
        },
{
    if s == s2 {
        assert(section_keys(add_key(m, s, k), s2) =~= section_keys(m, s2).insert(k));
    }
}

/// A sync never removes a key of any section.
pub proof fn lemma_sync_keeps_keys(m: IniMap, tag: Seq<char>, es: Seq<Entry>, s: Seq<char>, k: Seq<char>)
    requires
        has_key(m, s, k),
    ensures
        has_key(sync_model(m, tag, es).0, s, k),
    decreases es.len(),
{
    if es.len() > 0 {
        lemma_sync_keeps_keys(m, tag, es.drop_last(), s, k);
        let prev = sync_model(m, tag, es.drop_last()).0;
        let km = marker(tag, es.last().id@);
        lemma_add_key_keeps(prev, archive_section(), km, s, k);
        lemma_add_key_keeps(add_key(prev, archive_section(), km), contents_section(), title_key(es.last().title@), s, k);
    }
}

/// After a sync every listed entry's marker is in the archive.
proof fn lemma_sync_covers(m: IniMap, tag: Seq<char>, es: Seq<Entry>, i: int)
    requires
        0 <= i < es.len(),
    ensures
        has_key(sync_model(m, tag, es).0, archive_section(), marker(tag, es[i].id@)),
    decreases es.len(),
{
    let prev = sync_model(m, tag, es.drop_last()).0;
    let km = marker(tag, es.last().id@);
    let k = marker(tag, es[i].id@);
    if i < es.len() - 1 {
        lemma_sync_covers(m, tag, es.drop_last(), i);
        assert(es.drop_last()[i] == es[i]);
        lemma_add_key_keeps(prev, archive_section(), km, archive_section(), k);
        lemma_add_key_keeps(add_key(prev, archive_section(), km), contents_section(), title_key(es.last().title@), archive_section(), k);
    } else if !has_key(prev, archive_section(), km) {
        lemma_add_key_keeps(add_key(prev, archive_section(), km), contents_section(), title_key(es.last().title@), archive_section(), k);
    }
}

/// Offering entries whose markers are all archived changes nothing.
proof fn lemma_sync_all_known(m: IniMap, tag: Seq<char>, es: Seq<Entry>)
    requires
        forall|i: int| 0 <= i < es.len() ==> has_key(m, archive_section(), marker(tag, #[trigger] es[i].id@)),
    ensures
        sync_model(m, tag, es) == (m, 0nat),
    decreases es.len(),
{
    if es.len() > 0 {
        assert forall|i: int| 0 <= i < es.drop_last().len() implies has_key(
            m,
            archive_section(),
            marker(tag, #[trigger] es.drop_last()[i].id@),
        ) by {
            assert(es.drop_last()[i] == es[i]);
        }
        lemma_sync_all_known(m, tag, es.drop_last());
        assert(has_key(m, archive_section(), marker(tag, es[es.len() - 1].id@)));
    }
}

/// Idempotence: syncing the same entry list a second time records nothing
/// and leaves the ledger as the first sync left it.
pub proof fn lemma_sync_idempotent(m: IniMap, tag: Seq<char>, es: Seq<Entry>)
    ensures
        sync_model(sync_model(m, tag, es).0, tag, es) == (sync_model(m, tag, es).0, 0nat),
{
    let m1 = sync_model(m, tag, es).0;
    assert forall|i: int| 0 <= i < es.len() implies has_key(m1, archive_section(), marker(tag, #[trigger] es[i].id@)) by {
        lemma_sync_covers(m, tag, es, i);
    }
    lemma_sync_all_known(m1, tag, es);
}

/// One sync's archive is the old archive together with the markers of the
/// listed entries: it only grows.
pub proof fn lemma_sync_archive(m: IniMap, tag: Seq<char>, es: Seq<Entry>)
    ensures
        section_keys(sync_model(m, tag, es).0, archive_section())
            == section_keys(m, archive_section()).union(markers(tag, es)),
        section_keys(m, archive_section()).subset_of(section_keys(sync_model(m, tag, es).0, archive_section())),
    decreases es.len(),
{
    let a = archive_section();
    if es.len() == 0 {
        assert(markers(tag, es) =~= Set::empty());
        assert(section_keys(m, a).union(markers(tag, es)) =~= section_keys(m, a));
    } else {
        lemma_sync_archive(m, tag, es.drop_last());
        lemma_sections_differ();
        let prev = sync_model(m, tag, es.drop_last()).0;
        let km = marker(tag, es.last().id@);
        assert(markers(tag, es) =~= markers(tag, es.drop_last()).insert(km)) by {
            assert forall|k: Seq<char>| markers(tag, es).contains(k) implies markers(tag, es.drop_last()).insert(km).contains(k) by {
                let i = choose|i: int| 0 <= i < es.len() && k == marker(tag, es[i].id@);
                if i < es.len() - 1 {
                    assert(es.drop_last()[i] == es[i]);
                }
            }
            assert forall|k: Seq<char>| markers(tag, es.drop_last()).insert(km).contains(k) implies markers(tag, es).contains(k) by {
                if k != km {
                    let i = choose|i: int| 0 <= i < es.drop_last().len() && k == marker(tag, es.drop_last()[i].id@);
                    assert(es.drop_last()[i] == es[i]);
                } else {
                    assert(k == marker(tag, es[es.len() - 1].id@));
                }
            }
        }
        if !has_key(prev, a, km) {
            lemma_add_key_section(prev, a, km, a);
            lemma_add_key_section(add_key(prev, a, km), contents_section(), title_key(es.last().title@), a);
        }
        assert(section_keys(sync_model(m, tag, es).0, a) =~= section_keys(m, a).union(markers(tag, es)));
    }
}

/// Monotonicity: after any number of syncs the archive holds exactly the
/// markers it started with and those of every entry id ever listed; each
/// sync keeps all that came before.
pub proof fn lemma_runs_archive(m: IniMap, tag: Seq<char>, runs: Seq<Seq<Entry>>)
    ensures
        section_keys(sync_runs(m, tag, runs), archive_section())
            == section_keys(m, archive_section()).union(observed(tag, runs)),
        runs.len() > 0 ==> section_keys(sync_runs(m, tag, runs.drop_last()), archive_section()).subset_of(
            section_keys(sync_runs(m, tag, runs), archive_section()),
        ),
    decreases runs.len(),
{
    let a = archive_section();
    if runs.len() == 0 {
        assert(observed(tag, runs) =~= Set::empty());
        assert(section_keys(m, a).union(observed(tag, runs)) =~= section_keys(m, a));
    } else {
        let init = runs.drop_last();
        lemma_runs_archive(m, tag, init);
        lemma_sync_archive(sync_runs(m, tag, init), tag, runs.last());
        assert(observed(tag, runs) =~= observed(tag, init).union(markers(tag, runs.last()))) by {
            assert forall|k: Seq<char>| observed(tag, runs).contains(k) implies observed(tag, init).union(markers(tag, runs.last())).contains(k) by {
                let (r, i) = choose|r: int, i: int|
                    0 <= r < runs.len() && 0 <= i < runs[r].len() && k == marker(tag, runs[r][i].id@);
                if r < runs.len() - 1 {
                    assert(init[r] == runs[r]);
                } else {
                    assert(markers(tag, runs.last()).contains(k));
                }
            }
            assert forall|k: Seq<char>| observed(tag, init).union(markers(tag, runs.last())).contains(k) implies observed(tag, runs).contains(k) by {
                if observed(tag, init).contains(k) {
                    let (r, i) = choose|r: int, i: int|
                        0 <= r < init.len() && 0 <= i < init[r].len() && k == marker(tag, init[r][i].id@);
                    assert(init[r] == runs[r]);
                } else {
                    let i = choose|i: int| 0 <= i < runs.last().len() && k == marker(tag, runs.last()[i].id@);
                    assert(runs[runs.len() - 1] == runs.last());
                }
            }
        }
        assert(section_keys(sync_runs(m, tag, runs), a) =~= section_keys(m, a).union(observed(tag, runs)));
    }
}

/// The distinct entry ids listed in any of `runs`.
pub open spec fn observed_ids(runs: Seq<Seq<Entry>>) -> Set<Seq<char>> {
    Set::new(
        |id: Seq<char>| exists|r: int, i: int| 0 <= r < runs.len() && 0 <= i < runs[r].len() && id == runs[r][i].id@,
    )
}

proof fn lemma_observed_ids_finite(runs: Seq<Seq<Entry>>)
    ensures
        observed_ids(runs).finite(),
    decreases runs.len(),
{
    if runs.len() == 0 {
        assert(observed_ids(runs) =~= Set::empty());
    } else {
        let init = runs.drop_last();
        let ids = runs.last().map_values(|e: Entry| e.id@);
        lemma_observed_ids_finite(init);
        ids.lemma_cardinality_of_set();
        assert(observed_ids(runs) =~= observed_ids(init).union(ids.to_set())) by {
            assert forall|id: Seq<char>| observed_ids(runs).contains(id) implies observed_ids(init).union(ids.to_set()).contains(id) by {
                let (r, i) = choose|r: int, i: int| 0 <= r < runs.len() && 0 <= i < runs[r].len() && id == runs[r][i].id@;
                if r < runs.len() - 1 {
                    assert(init[r] == runs[r]);
                } else {
                    assert(ids[i] == id);
                }
            }
            assert forall|id: Seq<char>| observed_ids(init).union(ids.to_set()).contains(id) implies observed_ids(runs).contains(id) by {
                if observed_ids(init).contains(id) {
                    let (r, i) = choose|r: int, i: int| 0 <= r < init.len() && 0 <= i < init[r].len() && id == init[r][i].id@;
                    assert(init[r] == runs[r]);
                } else {
                    let i = choose|i: int| 0 <= i < ids.len() && ids[i] == id;
                    assert(runs[runs.len() - 1] == runs.last());
                }
            }
        }
    }
}

/// Counting: from a ledger with an empty archive, the archive after any
/// number of syncs has as many markers as distinct entry ids were listed.
pub proof fn lemma_runs_archive_size(m: IniMap, tag: Seq<char>, runs: Seq<Seq<Entry>>)
    requires
        section_keys(m, archive_section()) == Set::<Seq<char>>::empty(),
    ensures
        section_keys(sync_runs(m, tag, runs), archive_section()).finite(),
        section_keys(sync_runs(m, tag, runs), archive_section()).len() == observed_ids(runs).len(),
{
    let f = |id: Seq<char>| marker(tag, id);
    lemma_runs_archive(m, tag, runs);
    lemma_observed_ids_finite(runs);
    assert(section_keys(sync_runs(m, tag, runs), archive_section()) =~= observed(tag, runs));
    assert(observed_ids(runs).map(f) =~= observed(tag, runs)) by {
        assert forall|k: Seq<char>| observed(tag, runs).contains(k) implies observed_ids(runs).map(f).contains(k) by {
            let (r, i) = choose|r: int, i: int| 0 <= r < runs.len() && 0 <= i < runs[r].len() && k == marker(tag, runs[r][i].id@);
            assert(observed_ids(runs).contains(runs[r][i].id@));
        }
    }
    assert forall|a: Seq<char>, b: Seq<char>| observed_ids(runs).contains(a) && observed_ids(runs).contains(b) && #[trigger] f(a) == #[trigger] f(b) implies a == b by {
        let n = tag.len() as int + 1;
        assert(a =~= f(a).subrange(n, f(a).len() as int));
        assert(b =~= f(b).subrange(n, f(b).len() as int));
    }
    lemma_map_size(observed_ids(runs), observed(tag, runs), f);
}

/// Write-avoidance: a sync that records nothing new leaves the ledger map
/// exactly as it was.
pub proof fn lemma_nothing_new_nothing_changed(m: IniMap, tag: Seq<char>, es: Seq<Entry>)
    requires
        sync_model(m, tag, es).1 == 0,
    ensures
        sync_model(m, tag, es).0 == m,
    decreases es.len(),
{
    if es.len() > 0 {
        lemma_nothing_new_nothing_changed(m, tag, es.drop_last());
    }
}

/// Every entry's archive marker is plain, so that the ledger text carries
/// it unchanged (titles are always recorded under plain keys).
pub open spec fn plain_entries(tag: Seq<char>, es: Seq<Entry>) -> bool {
    forall|i: int| 0 <= i < es.len() ==> #[trigger] plain_entry(tag, es[i])
}

pub open spec fn plain_entry(tag: Seq<char>, e: Entry) -> bool {
    plain_name(marker(tag, e.id@))
}

proof fn lemma_sections_plain()
    ensures
        plain_name(archive_section()),
        plain_name(contents_section()),
        archive_section() != "default"@,
        contents_section() != "default"@,
{
    reveal_strlit("archive");
    reveal_strlit("contents");
    reveal_strlit("default");
    assert(archive_section()[0] != "default"@[0]);
    assert(contents_section()[1] != "default"@[1]);
}

proof fn lemma_add_key_plain(m: IniMap, s: Seq<char>, k: Seq<char>)
    requires
        plain_map(m),
        plain_name(s),
        plain_name(k),
        s != "default"@,
    ensures
        plain_map(add_key(m, s, k)),
{
    let r = add_key(m, s, k);
    assert forall|s2: Seq<char>| #[trigger] r.contains_key(s2) implies plain_name(s2) && forall|k2: Seq<char>|
        #[trigger] r[s2].contains_key(k2) ==> plain_name(k2) && match r[s2][k2] {
            Some(v) => plain_value(v),
            None => true,
        } by {
        if s2 != s {
            assert(m.contains_key(s2));
        }
    }
}

/// A sync of plain entries keeps a plain ledger plain.
pub proof fn lemma_sync_keeps_plain(m: IniMap, tag: Seq<char>, es: Seq<Entry>)
    requires
        plain_map(m),
        plain_entries(tag, es),
    ensures
        plain_map(sync_model(m, tag, es).0),
    decreases es.len(),
{
    if es.len() > 0 {
        let d = es.drop_last();
        assert forall|i: int| 0 <= i < d.len() implies #[trigger] plain_entry(tag, d[i]) by {
            assert(d[i] == es[i]);
        }
        lemma_sync_keeps_plain(m, tag, es.drop_last());
        lemma_sections_plain();
        let prev = sync_model(m, tag, es.drop_last()).0;
        let e = es[es.len() - 1];
        let k = marker(tag, e.id@);
        assert(plain_entry(tag, es[es.len() - 1]));
        if !has_key(prev, archive_section(), k) {
            lemma_add_key_plain(prev, archive_section(), k);
            lemma_title_key_plain(e.title@);
            lemma_add_key_plain(add_key(prev, archive_section(), k), contents_section(), title_key(e.title@));
        }
    }
}

/// Idempotence across runs: where a sync's ledger was written out and the
/// next run parses that text back, a second sync of the same plain entries
/// finds nothing new and leaves the ledger as written.
pub proof fn lemma_rerun_after_write(m: IniMap, tag: Seq<char>, es: Seq<Entry>, text: Seq<char>)
    requires
        plain_map(m),
        plain_entries(tag, es),
        plain_map(sync_model(m, tag, es).0) ==> ini_parse_cs(text) == Some(sync_model(m, tag, es).0),
    ensures
        ini_parse_cs(text) == Some(sync_model(m, tag, es).0),
        sync_model(ini_parse_cs(text)->0, tag, es) == (sync_model(m, tag, es).0, 0nat),
{
    lemma_sync_keeps_plain(m, tag, es);
    lemma_sync_idempotent(m, tag, es);
}

/// The ledger file only grows: where a run parsed `before`, synced and wrote
/// `after`, every key of every section of `before` is in `after`, and the
/// archive of `after` is that of `before` with the listed entries' markers.
pub proof fn lemma_file_grows(before: Seq<char>, after: Seq<char>, tag: Seq<char>, es: Seq<Entry>)
    requires
        ini_parse_cs(before) is Some,
        plain_map(ini_parse_cs(before)->0),
        plain_entries(tag, es),
        plain_map(sync_model(ini_parse_cs(before)->0, tag, es).0) ==> ini_parse_cs(after) == Some(
            sync_model(ini_parse_cs(before)->0, tag, es).0,
        ),
    ensures
        ini_parse_cs(after) is Some,
        forall|s: Seq<char>, k: Seq<char>|
            has_key(ini_parse_cs(before)->0, s, k) ==> #[trigger] has_key(ini_parse_cs(after)->0, s, k),
        section_keys(ini_parse_cs(after)->0, archive_section()) == section_keys(
            ini_parse_cs(before)->0,
            archive_section(),
        ).union(markers(tag, es)),
{
    let m = ini_parse_cs(before)->0;
    lemma_sync_keeps_plain(m, tag, es);
    lemma_sync_archive(m, tag, es);
    assert forall|s: Seq<char>, k: Seq<char>| has_key(m, s, k) implies #[trigger] has_key(ini_parse_cs(after)->0, s, k) by {
        lemma_sync_keeps_keys(m, tag, es, s, k);
    }
}

/// The texts `texts[0..=N]` are those of a ledger file over `N` runs: run
/// `j` parsed `texts[j]`, synced `runs[j]`, and wrote `texts[j + 1]` with the
/// round trip that `Playlist::save` states.
pub open spec fn written_in_turn(texts: Seq<Seq<char>>, tag: Seq<char>, runs: Seq<Seq<Entry>>) -> bool {
    &&& texts.len() == runs.len() + 1
    &&& forall|j: int|
        0 <= j < runs.len() ==> (ini_parse_cs(texts[j]) is Some && plain_map(
            sync_model(ini_parse_cs(texts[j])->0, tag, #[trigger] runs[j]).0,
        ) ==> ini_parse_cs(texts[j + 1]) == Some(sync_model(ini_parse_cs(texts[j])->0, tag, runs[j]).0))
}

proof fn lemma_files_prefix(texts: Seq<Seq<char>>, tag: Seq<char>, runs: Seq<Seq<Entry>>, k: int)
    requires
        written_in_turn(texts, tag, runs),
        ini_parse_cs(texts[0]) is Some,
        plain_map(ini_parse_cs(texts[0])->0),
        forall|j: int| 0 <= j < runs.len() ==> plain_entries(tag, #[trigger] runs[j]),
        0 <= k <= runs.len(),
    ensures
        ini_parse_cs(texts[k]) == Some(sync_runs(ini_parse_cs(texts[0])->0, tag, runs.take(k))),
        plain_map(sync_runs(ini_parse_cs(texts[0])->0, tag, runs.take(k))),
    decreases k,
{
    let m0 = ini_parse_cs(texts[0])->0;
    if k == 0 {
        assert(runs.take(0).len() == 0);
    } else {
        lemma_files_prefix(texts, tag, runs, k - 1);
        let prev = sync_runs(m0, tag, runs.take(k - 1));
        assert(runs.take(k).drop_last() =~= runs.take(k - 1));
        assert(runs.take(k).last() == runs[k - 1]);
        lemma_sync_keeps_plain(prev, tag, runs[k - 1]);
    }
}

/// Over any number of runs through the ledger file, starting from a plain
/// file and with plain markers, the last file parses to the ledger of the
/// in-memory model: its archive holds exactly the initial markers and those
/// of every id ever listed, and from an empty archive it has as many keys as
/// distinct ids were listed.
pub proof fn lemma_runs_through_files(texts: Seq<Seq<char>>, tag: Seq<char>, runs: Seq<Seq<Entry>>)
    requires
        written_in_turn(texts, tag, runs),
        ini_parse_cs(texts[0]) is Some,
        plain_map(ini_parse_cs(texts[0])->0),
        forall|j: int| 0 <= j < runs.len() ==> plain_entries(tag, #[trigger] runs[j]),
    ensures
        ini_parse_cs(texts[runs.len() as int]) == Some(sync_runs(ini_parse_cs(texts[0])->0, tag, runs)),
        section_keys(ini_parse_cs(texts[runs.len() as int])->0, archive_section()) == section_keys(
            ini_parse_cs(texts[0])->0,
            archive_section(),
        ).union(observed(tag, runs)),
        section_keys(ini_parse_cs(texts[0])->0, archive_section()) == Set::<Seq<char>>::empty() ==> section_keys(
            ini_parse_cs(texts[runs.len() as int])->0,
            archive_section(),
        ).len() == observed_ids(runs).len(),
{
    let m0 = ini_parse_cs(texts[0])->0;
    lemma_files_prefix(texts, tag, runs, runs.len() as int);
    assert(runs.take(runs.len() as int) =~= runs);
    lemma_runs_archive(m0, tag, runs);
    if section_keys(m0, archive_section()) == Set::<Seq<char>>::empty() {
        lemma_runs_archive_size(m0, tag, runs);
    }
}

} // verus!
