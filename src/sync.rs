use crate::ledger::{
    add_key, archive_section, contents_section, has_key, ini_parse_cs, marker, plain_map, title_key,
    Entry,
    IniMap,
    Ledger, LedgerError,
};
use vstd::prelude::*;

verus! {

/// The ledger map after the entries `es`, taken in order, were offered to it,
/// and how many of them were new. An entry is new where its marker is not yet
/// in the archive; a new entry adds its marker and its title's key.
pub open spec fn sync_model(m: IniMap, tag: Seq<char>, es: Seq<Entry>) -> (IniMap, nat)
    decreases es.len(),
{
    if es.len() == 0 {
        (m, 0)
    } else {
        let prev = sync_model(m, tag, es.drop_last());
        let e = es.last();
        let k = marker(tag, e.id@);
        if has_key(prev.0, archive_section(), k) {
            prev
        } else {
            (add_key(add_key(prev.0, archive_section(), k), contents_section(), title_key(e.title@)), prev.1 + 1)
        }
    }
}

/// Offers each entry, in the order given, to the ledger, recording those whose
/// id it has not seen. Returns how many were recorded.
pub fn record_new(ledger: &mut Ledger, entries: &Vec<Entry>) -> (n: usize)
    requires
        old(ledger).wf(),
    ensures
        final(ledger).wf(),
        final(ledger).tag() == old(ledger).tag(),
        (final(ledger)@, n as nat) == sync_model(old(ledger)@, old(ledger).tag(), entries@),
        final(ledger).changed() == (old(ledger).changed() || n > 0),
        final(ledger).archive().finite(),
        final(ledger).archive().len() == old(ledger).archive().len() + n,
{
    proof {
        ledger.lemma_archive_finite();
    }
    let ghost m0 = ledger@;
    let ghost tag = ledger.tag();
    let mut n: usize = 0;
    let mut i: usize = 0;
    while i < entries.len()
        invariant
            i <= entries.len(),
            n <= i,
            ledger.wf(),
            ledger.tag() == tag,
            tag == old(ledger).tag(),
            m0 == old(ledger)@,
            (ledger@, n as nat) == sync_model(m0, tag, entries@.take(i as int)),
            ledger.changed() == (old(ledger).changed() || n > 0),
            ledger.archive().finite(),
            ledger.archive().len() == old(ledger).archive().len() + n,
        decreases entries.len() - i,
    {
        assert(entries@.take(i + 1).drop_last() =~= entries@.take(i as int));
        if ledger.record(&entries[i]) {
            n = n + 1;
        }
        i = i + 1;
    }
    assert(entries@.take(i as int) =~= entries@);
    n
}

/// How one playlist is configured.
pub struct PlaylistConfig {
    pub name: String,
    pub url: String,
    /// The playlist's directory, where its files and its ledger live.
    pub directory: String,
    /// The ledger's file name inside `directory`.
    pub ledger_file: String,
    /// The fetch tool to run.
    pub tool_path: String,
    /// The fetch timeout, in seconds.
    pub socket_timeout: u16,
    /// The source tag of archive markers, `<tag> <id>`.
    pub archive_tag: String,
}

/// What the fetcher listed for a playlist's URL.
pub enum Fetched {
    /// The URL names a single item; only collections are synced.
    Single,
    Collection(Vec<Entry>),
}

/// Why one playlist's sync failed; the run goes on with the next one.
pub enum SyncError {
    /// Creating the directory or reading or writing the ledger failed.
    Io(String),
    /// The ledger file is malformed; the playlist is skipped, never reset.
    Parse(String),
    /// Listing failed, or the URL is not a collection.
    Fetch(String),
    /// The batch download reported failure.
    Download(String),
}

/// What the fetch tool is asked to download.
pub struct DownloadRequest {
    pub tool_path: String,
    pub url: String,
    pub socket_timeout: u16,
    pub directory: String,
    /// The ledger file, handed over as the tool's exclusion filter.
    pub archive_file: String,
    /// Where each download goes, inside `directory`.
    pub output_pattern: String,
}

/// The outcome of a playlist's sync.
pub struct SyncReport {
    pub new_entry_count: usize,
    pub ledger_changed: bool,
    /// The ledger's new text, to be written to its file; present exactly
    /// where the ledger changed.
    pub ledger_text: Option<String>,
}

/// One playlist in the middle of its sync: its ledger loaded, its entries
/// listed and the new ones recorded in memory.
pub struct Playlist {
    config: PlaylistConfig,
    entries: Vec<Entry>,
    ledger: Ledger,
    new_entry_count: usize,
}

/// Where the fetch tool writes each download, inside the playlist's
/// directory: the entry's title and the file's extension.
pub open spec fn output_pattern() -> Seq<char> {
    "%(title)s.%(ext)s"@
}

impl Playlist {
    pub closed spec fn spec_config(self) -> PlaylistConfig {
        self.config
    }

    pub closed spec fn spec_ledger(self) -> Ledger {
        self.ledger
    }

    pub closed spec fn spec_entries(self) -> Seq<Entry> {
        self.entries@
    }

    pub closed spec fn spec_new_entry_count(self) -> nat {
        self.new_entry_count as nat
    }

    /// The ledger is well formed, and it holds unsaved changes only where
    /// some entry was new.
    pub open spec fn wf(self) -> bool {
        &&& self.spec_ledger().wf()
        &&& (self.spec_ledger().changed() ==> self.spec_new_entry_count() > 0)
    }

    pub fn config(&self) -> (r: &PlaylistConfig)
        ensures
            *r == self.spec_config(),
    {
        &self.config
    }

    pub fn ledger(&self) -> (r: &Ledger)
        ensures
            *r == self.spec_ledger(),
    {
        &self.ledger
    }

    pub fn entries(&self) -> (r: &Vec<Entry>)
        ensures
            r@ == self.spec_entries(),
    {
        &self.entries
    }

    pub fn new_entry_count(&self) -> (r: usize)
        ensures
            r as nat == self.spec_new_entry_count(),
    {
        self.new_entry_count
    }

    /// Loads the playlist's ledger from the text of its file (`None`: no
    /// file yet). A malformed ledger stops the sync before anything is
    /// fetched; it is never reset to empty.
    pub fn load_ledger(config: &PlaylistConfig, ledger_text: Option<String>) -> (r: Result<Ledger, SyncError>)
        ensures
            r is Err <==> (ledger_text is Some && ini_parse_cs(ledger_text->0@) is None),
            r is Err ==> r matches Err(SyncError::Parse(_)),
            r matches Ok(l) ==> {
                &&& l.wf()
                &&& l.archive().finite()
                &&& l.tag() == config.archive_tag@
                &&& !l.changed()
                &&& l@ == match ledger_text {
                    Some(t) => ini_parse_cs(t@)->0,
                    None => IniMap::empty(),
                }
            },
    {
        match Ledger::load(config.archive_tag.as_str(), ledger_text) {
            Ok(l) => Ok(l),
            Err(LedgerError::Parse(e)) => Err(SyncError::Parse(e)),
        }
    }

    /// Takes what the fetcher listed for a loaded ledger, and records the
    /// new entries. A failed listing is reported with the playlist's name
    /// and its cause; a single item is refused, naming the playlist.
    pub fn new(config: PlaylistConfig, ledger: Ledger, fetched: Result<Fetched, String>) -> (r: Result<Playlist, SyncError>)
        requires
            ledger.wf(),
            !ledger.changed(),
        ensures
            r is Err <==> (fetched is Err || fetched matches Ok(Fetched::Single)),
            fetched matches Err(e) ==> (r matches Err(SyncError::Fetch(m)) && m@ == config.name@ + ": "@ + e@),
            fetched matches Ok(Fetched::Single) ==> (r matches Err(SyncError::Fetch(m)) && m@ == config.name@ + " is not a playlist"@),
            r matches Ok(p) ==> {
                &&& fetched matches Ok(Fetched::Collection(es))
                &&& p.wf()
                &&& p.spec_entries() == es@
                &&& p.spec_config() == config
                &&& p.spec_ledger().tag() == ledger.tag()
                &&& (p.spec_ledger()@, p.spec_new_entry_count()) == sync_model(ledger@, ledger.tag(), es@)
                &&& p.spec_ledger().changed() == (p.spec_new_entry_count() > 0)
                &&& p.spec_ledger().archive().len() == ledger.archive().len() + p.spec_new_entry_count()
            },
    {
        let entries = match fetched {
            Err(reason) => {
                return Err(SyncError::Fetch(config.name.clone().concat(": ").concat(reason.as_str())));
            },
            Ok(Fetched::Single) => {
                return Err(SyncError::Fetch(config.name.clone().concat(" is not a playlist")));
            },
            Ok(Fetched::Collection(es)) => es,
        };
        let mut ledger = ledger;
        let new_entry_count = record_new(&mut ledger, &entries);
        Ok(Playlist { config, entries, ledger, new_entry_count })
    }

    /// The download to run, once for any listing that is not empty. The
    /// ledger file is the tool's exclusion filter: archived entries are
    /// skipped by the tool itself. An empty listing runs nothing.
    pub fn download(&self) -> (r: Option<DownloadRequest>)
        ensures
            r is Some <==> self.spec_entries().len() > 0,
            r matches Some(d) ==> {
                &&& d.tool_path == self.spec_config().tool_path
                &&& d.url == self.spec_config().url
                &&& d.socket_timeout == self.spec_config().socket_timeout
                &&& d.directory == self.spec_config().directory
                &&& d.archive_file == self.spec_config().ledger_file
                &&& d.output_pattern@ == output_pattern()
            },
    {
        if self.entries.len() == 0 {
            return None;
        }
        Some(DownloadRequest {
            tool_path: self.config.tool_path.clone(),
            url: self.config.url.clone(),
            socket_timeout: self.config.socket_timeout,
            directory: self.config.directory.clone(),
            archive_file: self.config.ledger_file.clone(),
            output_pattern: String::from_str("%(title)s.%(ext)s"),
        })
    }

    /// Flushes the ledger: its text is handed back for writing only where
    /// something new was recorded since it was loaded. Where every section
    /// name and key is plain, the text parses back to the whole ledger.
    pub fn save(&mut self) -> (r: SyncReport)
        requires
            old(self).wf(),
        ensures
            final(self).wf(),
            final(self).spec_ledger()@ == old(self).spec_ledger()@,
            final(self).spec_ledger().tag() == old(self).spec_ledger().tag(),
            final(self).spec_entries() == old(self).spec_entries(),
            final(self).spec_config() == old(self).spec_config(),
            final(self).spec_new_entry_count() == old(self).spec_new_entry_count(),
            !final(self).spec_ledger().changed(),
            r.new_entry_count as nat == old(self).spec_new_entry_count(),
            r.ledger_changed == old(self).spec_ledger().changed(),
            r.ledger_text is Some <==> r.ledger_changed,
            r.ledger_text matches Some(t) ==> (plain_map(old(self).spec_ledger()@) ==> ini_parse_cs(t@) == Some(old(self).spec_ledger()@)),
    {
        let text = self.ledger.flush();
        SyncReport {
            new_entry_count: self.new_entry_count,
            ledger_changed: text.is_some(),
            ledger_text: text,
        }
    }
}

} // verus!
