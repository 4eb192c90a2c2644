use configparser::ini::Ini;
use vstd::prelude::*;

verus! {

/// The nested map an `Ini` holds: section name to (key to optional value).
pub type IniMap = Map<Seq<char>, Map<Seq<char>, Option<Seq<char>>>>;

#[verifier::external_type_specification]
#[verifier::external_body]
pub struct ExIni(Ini);

/// What an `Ini` holds, section by section.
pub uninterp spec fn ini_map(c: Ini) -> IniMap;

/// Holds of an `Ini` made by `Ini::new_cs`: case-sensitive, with the
/// crate's default comment symbols and delimiters.
pub uninterp spec fn ini_is_cs(c: Ini) -> bool;

/// The map that configparser parses from a text with the settings of
/// `Ini::new_cs`, or `None` where it reports the text as malformed.
pub uninterp spec fn ini_parse_cs(text: Seq<char>) -> Option<IniMap>;

/// Relies on configparser's `Ini::new_cs`: an empty, case-sensitive map.
pub assume_specification[ configparser::ini::Ini::new_cs ]() -> (r: Ini)
    ensures
        ini_map(r) == IniMap::empty(),
        ini_is_cs(r),
;

/// Relies on configparser's `Ini::read`: it replaces the map with the parsed
/// text, or reports an error; the settings stay.
#[verifier::external_body]
fn ini_read(c: &mut Ini, text: String) -> (r: Result<(), String>)
    ensures
        ini_is_cs(*final(c)) == ini_is_cs(*old(c)),
        ini_is_cs(*old(c)) ==> (r is Ok <==> ini_parse_cs(text@) is Some),
        ini_is_cs(*old(c)) && r is Ok ==> ini_map(*final(c)) == ini_parse_cs(text@)->0,
        r is Ok ==> finite_map(ini_map(*final(c))),
{
    c.read(text).map(|_| ())
}

/// Relies on configparser's `Ini::get_map_ref`: the stored map, looked up
/// without any case folding.
#[verifier::external_body]
fn ini_has_key(c: &Ini, section: &str, key: &str) -> (r: bool)
    ensures
        r == has_key(ini_map(*c), section@, key@),
{
    c.get_map_ref().get(section).map_or(false, |m| m.contains_key(key))
}

/// Relies on configparser's `Ini::set`: on a case-sensitive `Ini` the key is
/// stored as given, with no value, creating the section where needed.
#[verifier::external_body]
fn ini_set_marker(c: &mut Ini, section: &str, key: &str)
    ensures
        ini_is_cs(*final(c)) == ini_is_cs(*old(c)),
        ini_is_cs(*old(c)) ==> ini_map(*final(c)) == add_key(ini_map(*old(c)), section@, key@),
{
    c.set(section, key, None);
}

/// Relies on configparser's `Ini::writes`: the map in ini syntax. The order of
/// sections and keys follows a hash map's walk, so the text itself is not
/// named; what holds of every order is that a plain map parses back to itself.
#[verifier::external_body]
fn ini_writes(c: &Ini) -> (r: String)
    ensures
        ini_is_cs(*c) && plain_map(ini_map(*c)) ==> ini_parse_cs(r@) == Some(ini_map(*c)),
{
    c.writes()
}

/// Every section and every section's key set is finite.
pub open spec fn finite_map(m: IniMap) -> bool {
    &&& m.dom().finite()
    &&& forall|s: Seq<char>| m.contains_key(s) ==> (#[trigger] m[s]).dom().finite()
}

/// The characters that `str::trim` removes: Unicode white space.
pub open spec fn is_white_space(c: char) -> bool {
    let u = c as u32;
    u == 0x20 || (0x09 <= u <= 0x0d) || u == 0x85 || u == 0xa0 || u == 0x1680 || (0x2000 <= u
        <= 0x200a) || u == 0x2028 || u == 0x2029 || u == 0x202f || u == 0x205f || u == 0x3000
}

/// A section name or key that ini syntax writes and reads back unchanged:
/// not empty, not trimmed, not taken for a section header, and free of
/// delimiters, comment symbols, brackets and line breaks.
pub open spec fn plain_name(s: Seq<char>) -> bool {
    &&& s.len() > 0
    &&& !is_white_space(s[0])
    &&& !is_white_space(s[s.len() - 1])
    &&& s[0] != '['
    &&& forall|i: int|
        0 <= i < s.len() ==> {
            let c = #[trigger] s[i];
            c != '=' && c != ':' && c != ';' && c != '#' && c != ']' && c != '\n' && c != '\r'
        }
}

/// A value that ini syntax writes and reads back unchanged: not trimmed,
/// and free of comment symbols and line breaks.
pub open spec fn plain_value(v: Seq<char>) -> bool {
    &&& v.len() > 0 ==> !is_white_space(v[0]) && !is_white_space(v[v.len() - 1])
    &&& forall|i: int|
        0 <= i < v.len() ==> {
            let c = #[trigger] v[i];
            c != ';' && c != '#' && c != '\n' && c != '\r'
        }
}

/// A map that ini syntax carries unchanged through a write and a parse:
/// plain names, keys and values, and no `default` section (whose keys
/// would be written without a header).
pub open spec fn plain_map(m: IniMap) -> bool {
    &&& !m.contains_key("default"@)
    &&& forall|s: Seq<char>|
        #[trigger] m.contains_key(s) ==> {
            &&& plain_name(s)
            &&& forall|k: Seq<char>|
                #[trigger] m[s].contains_key(k) ==> plain_name(k) && match m[s][k] {
                    Some(v) => plain_value(v),
                    None => true,
                }
        }
}

/// The escape of one title character: `%` and the characters that ini
/// syntax would read otherwise become `%` and two hex digits.
pub open spec fn escape_char(c: char) -> Seq<char> {
    if c == '%' {
        seq!['%', '2', '5']
    } else if c == '=' {
        seq!['%', '3', 'D']
    } else if c == ':' {
        seq!['%', '3', 'A']
    } else if c == ';' {
        seq!['%', '3', 'B']
    } else if c == '#' {
        seq!['%', '2', '3']
    } else if c == '[' {
        seq!['%', '5', 'B']
    } else if c == ']' {
        seq!['%', '5', 'D']
    } else if c == '\n' {
        seq!['%', '0', 'A']
    } else if c == '\r' {
        seq!['%', '0', 'D']
    } else {
        seq![c]
    }
}

pub open spec fn escape(s: Seq<char>) -> Seq<char>
    decreases s.len(),
{
    if s.len() == 0 {
        Seq::empty()
    } else {
        escape(s.drop_last()) + escape_char(s.last())
    }
}

/// The key under which a title is recorded: its escape between double
/// quotes, so that any title, the empty one included, is a plain key.
pub open spec fn title_key(t: Seq<char>) -> Seq<char> {
    seq!['"'] + escape(t) + seq!['"']
}

proof fn lemma_escape_clean(s: Seq<char>)
    ensures
        forall|i: int|
            0 <= i < escape(s).len() ==> {
                let c = #[trigger] escape(s)[i];
                c != '=' && c != ':' && c != ';' && c != '#' && c != ']' && c != '\n' && c != '\r'
            },
    decreases s.len(),
{
    if s.len() > 0 {
        lemma_escape_clean(s.drop_last());
        let a = escape(s.drop_last());
        let b = escape_char(s.last());
        assert forall|i: int| 0 <= i < escape(s).len() implies {
            let c = #[trigger] escape(s)[i];
            c != '=' && c != ':' && c != ';' && c != '#' && c != ']' && c != '\n' && c != '\r'
        } by {
            if i < a.len() {
                assert(escape(s)[i] == a[i]);
            } else {
                assert(escape(s)[i] == b[i - a.len()]);
            }
        }
    }
}

/// Every title key is plain.
pub proof fn lemma_title_key_plain(t: Seq<char>)
    ensures
        plain_name(title_key(t)),
{
    lemma_escape_clean(t);
    let k = title_key(t);
    let e = escape(t);
    assert forall|i: int| 0 <= i < k.len() implies {
        let c = #[trigger] k[i];
        c != '=' && c != ':' && c != ';' && c != '#' && c != ']' && c != '\n' && c != '\r'
    } by {
        if 0 < i < k.len() - 1 {
            assert(k[i] == e[i - 1]);
        }
    }
}

/// The escape of `c` where it needs one.
fn escape_of(c: char) -> (r: Option<&'static str>)
    ensures
        r matches Some(e) ==> e@ == escape_char(c),
        r is None ==> escape_char(c) == seq![c],
{
    proof {
        reveal_strlit("%25");
        reveal_strlit("%3D");
        reveal_strlit("%3A");
        reveal_strlit("%3B");
        reveal_strlit("%23");
        reveal_strlit("%5B");
        reveal_strlit("%5D");
        reveal_strlit("%0A");
        reveal_strlit("%0D");
    }
    if c == '%' {
        assert("%25"@ =~= seq!['%', '2', '5']);
        Some("%25")
    } else if c == '=' {
        assert("%3D"@ =~= seq!['%', '3', 'D']);
        Some("%3D")
    } else if c == ':' {
        assert("%3A"@ =~= seq!['%', '3', 'A']);
        Some("%3A")
    } else if c == ';' {
        assert("%3B"@ =~= seq!['%', '3', 'B']);
        Some("%3B")
    } else if c == '#' {
        assert("%23"@ =~= seq!['%', '2', '3']);
        Some("%23")
    } else if c == '[' {
        assert("%5B"@ =~= seq!['%', '5', 'B']);
        Some("%5B")
    } else if c == ']' {
        assert("%5D"@ =~= seq!['%', '5', 'D']);
        Some("%5D")
    } else if c == '\n' {
        assert("%0A"@ =~= seq!['%', '0', 'A']);
        Some("%0A")
    } else if c == '\r' {
        assert("%0D"@ =~= seq!['%', '0', 'D']);
        Some("%0D")
    } else {
        None
    }
}

/// The key a title is recorded under in the contents section.
pub fn title_key_of(title: &str) -> (r: String)
    ensures
        r@ == title_key(title@),
{
    let mut r = String::from_str("\"");
    proof {
        reveal_strlit("\"");
    }
    let n = title.unicode_len();
    let mut i: usize = 0;
    while i < n
        invariant
            n == title@.len(),
            i <= n,
            r@ == seq!['"'] + escape(title@.subrange(0, i as int)),
        decreases n - i,
    {
        let c = title.get_char(i);
        assert(title@.subrange(0, i + 1).drop_last() =~= title@.subrange(0, i as int));
        match escape_of(c) {
            Some(e) => r.append(e),
            None => r.append(title.substring_char(i, i + 1)),
        }
        i = i + 1;
        assert(r@ =~= seq!['"'] + escape(title@.subrange(0, i as int)));
    }
    assert(title@.subrange(0, n as int) =~= title@);
    r.append("\"");
    assert(r@ =~= title_key(title@));
    r
}

pub open spec fn has_key(m: IniMap, section: Seq<char>, key: Seq<char>) -> bool {
    m.contains_key(section) && m[section].contains_key(key)
}

/// `m` with `key` present, without a value, in `section`.
pub open spec fn add_key(m: IniMap, section: Seq<char>, key: Seq<char>) -> IniMap {
    if m.contains_key(section) {
        m.insert(section, m[section].insert(key, None))
    } else {
        m.insert(section, map![key => None])
    }
}

/// The keys of one section (empty where the section is absent).
pub open spec fn section_keys(m: IniMap, section: Seq<char>) -> Set<Seq<char>> {
    if m.contains_key(section) {
        m[section].dom()
    } else {
        Set::empty()
    }
}


/// The section listing the titles recorded (human-auditable contents).
pub open spec fn contents_section() -> Seq<char> {
    "contents"@
}

/// The section listing the archive markers `<tag> <id>` (the dedup key).
pub open spec fn archive_section() -> Seq<char> {
    "archive"@
}

/// The archive marker of an entry id: the source tag, a space, the id.
pub open spec fn marker(tag: Seq<char>, id: Seq<char>) -> Seq<char> {
    tag + seq![' '] + id
}

/// One remote playlist item, as the fetcher lists it.
pub struct Entry {
    pub id: String,
    pub title: String,
    pub uploader: Option<String>,
    pub position: Option<u64>,
}

/// Errors met while loading a ledger.
pub enum LedgerError {
    /// The ledger file exists but configparser rejects it.
    Parse(String),
}

/// The durable record of one playlist: an archive section of markers and a
/// contents section of titles, with a flag telling whether anything was
/// added since the ledger was loaded or last flushed.
pub struct Ledger {
    config: Ini,
    tag: String,
    dirty: bool,
}

impl Ledger {
    pub closed spec fn wf(self) -> bool {
        ini_is_cs(self.config) && finite_map(ini_map(self.config))
    }

    /// Every section of the ledger, the two it manages and any other.
    pub closed spec fn view(self) -> IniMap {
        ini_map(self.config)
    }

    pub closed spec fn tag(self) -> Seq<char> {
        self.tag@
    }

    /// Whether `record` added something since the last load or flush.
    pub closed spec fn changed(self) -> bool {
        self.dirty
    }

    /// A well-formed ledger's archive is finite.
    pub proof fn lemma_archive_finite(self)
        requires
            self.wf(),
        ensures
            self.archive().finite(),
    {
        if self@.contains_key(archive_section()) {
            assert(self@[archive_section()].dom().finite());
        }
    }

    pub open spec fn archive(self) -> Set<Seq<char>> {
        section_keys(self@, archive_section())
    }

    pub open spec fn contents(self) -> Set<Seq<char>> {
        section_keys(self@, contents_section())
    }

    /// An empty ledger, as for a playlist whose ledger file is absent.
    pub fn new(tag: &str) -> (r: Ledger)
        ensures
            r.wf(),
            r@ == IniMap::empty(),
            r.archive() == Set::<Seq<char>>::empty(),
            r.tag() == tag@,
            !r.changed(),
    {
        Ledger { config: Ini::new_cs(), tag: String::from_str(tag), dirty: false }
    }

    /// Loads a ledger from the text of its file, or an empty one where there
    /// is no file; a malformed file is an error, never an empty ledger.
    pub fn load(tag: &str, text: Option<String>) -> (r: Result<Ledger, LedgerError>)
        ensures
            r is Err <==> (text is Some && ini_parse_cs(text->0@) is None),
            r matches Ok(l) ==> {
                &&& l.wf()
                &&& l.archive().finite()
                &&& l.tag() == tag@
                &&& !l.changed()
                &&& l@ == match text {
                    Some(t) => ini_parse_cs(t@)->0,
                    None => IniMap::empty(),
                }
            },
    {
        let mut l = Ledger::new(tag);
        match text {
            None => Ok(l),
            Some(t) => match ini_read(&mut l.config, t) {
                Ok(()) => Ok(l),
                Err(e) => Err(LedgerError::Parse(e)),
            },
        }
    }

    /// The archive marker of `id` under this ledger's tag.
    pub fn marker_of(&self, id: &str) -> (r: String)
        ensures
            r@ == marker(self.tag(), id@),
    {
        let mut s = self.tag.clone();
        s.append(" ");
        s.append(id);
        proof {
            reveal_strlit(" ");
        }
        s
    }

    pub fn contains_id(&self, id: &str) -> (r: bool)
        ensures
            r == self.archive().contains(marker(self.tag(), id@)),
    {
        let m = self.marker_of(id);
        ini_has_key(&self.config, "archive", m.as_str())
    }

    pub fn contains_title(&self, title: &str) -> (r: bool)
        ensures
            r == self.contents().contains(title_key(title@)),
    {
        let k = title_key_of(title);
        ini_has_key(&self.config, "contents", k.as_str())
    }

    /// Records an entry: its marker in the archive, its title's key in the
    /// contents. Returns whether the marker was new; only then does the
    /// ledger count as changed.
    pub fn record(&mut self, entry: &Entry) -> (r: bool)
        requires
            old(self).wf(),
        ensures
            final(self).wf(),
            final(self).tag() == old(self).tag(),
            r == !old(self).archive().contains(marker(old(self).tag(), entry.id@)),
            r ==> final(self)@ == add_key(
                add_key(old(self)@, archive_section(), marker(old(self).tag(), entry.id@)),
                contents_section(),
                title_key(entry.title@),
            ),
            !r ==> final(self)@ == old(self)@,
            final(self).changed() == (old(self).changed() || r),
            final(self).archive().finite(),
            final(self).archive().len() == old(self).archive().len() + if r { 1int } else { 0int },
    {
        proof {
            if self@.contains_key(archive_section()) {
                assert(self@[archive_section()].dom().finite());
            }
        }
        if self.contains_id(entry.id.as_str()) {
            return false;
        }
        let m = self.marker_of(entry.id.as_str());
        ini_set_marker(&mut self.config, "archive", m.as_str());
        let t = title_key_of(entry.title.as_str());
        ini_set_marker(&mut self.config, "contents", t.as_str());
        self.dirty = true;
        proof {
            reveal_strlit("archive");
            reveal_strlit("contents");
            assert(archive_section()[0] != contents_section()[0]);
            let k = marker(old(self).tag(), entry.id@);
            assert(self.archive() =~= old(self).archive().insert(k));
        }
        true
    }

    /// The text to write back to the ledger file, only where something was
    /// recorded since the last load or flush; an unchanged ledger is never
    /// rewritten. Where every section name and key is plain, the text parses
    /// back to the whole ledger, unknown sections included.
    pub fn flush(&mut self) -> (r: Option<String>)
        requires
            old(self).wf(),
        ensures
            final(self).wf(),
            final(self)@ == old(self)@,
            final(self).tag() == old(self).tag(),
            r is Some <==> old(self).changed(),
            r matches Some(t) ==> (plain_map(old(self)@) ==> ini_parse_cs(t@) == Some(old(self)@)),
            !final(self).changed(),
    {
        if self.dirty {
            self.dirty = false;
            Some(ini_writes(&self.config))
        } else {
            None
        }
    }
}

} // verus!
