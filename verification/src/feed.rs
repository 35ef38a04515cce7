//! Feed assembly: turns the selected candidates, their document
//! contents, and the feed-level metadata into one `Feed` value, ready
//! for serialization.

use vstd::prelude::*;
use vstd::string::StringExecFns;

use crate::heading::{get_title, title_of};
use crate::select::views;
use crate::types::{BareLink, CandView, Candidate, Entry, Feed, Generator, Link};

verus! {

/// The most entries a feed ever holds.
pub const MAX_ENTRIES: usize = 10;

/// The RFC 3339 text chrono renders for a UTC timestamp given as seconds
/// and nanoseconds since the Unix epoch.
pub uninterp spec fn rfc3339_of(secs: i64, nanos: u32) -> Seq<char>;

/// Timestamps safely inside the range chrono accepts: within eight
/// trillion seconds of the epoch (about 250,000 years, under chrono's
/// limit of roughly 262,000 years from the common era), with a
/// nanosecond part below one second.
pub open spec fn formattable(secs: i64, nanos: u32) -> bool {
    -8_000_000_000_000 <= secs <= 8_000_000_000_000 && nanos < 1_000_000_000
}

/// Relies on chrono's `DateTime::<Utc>::from_timestamp` and
/// `DateTime::to_rfc3339`: the rendered text depends on the timestamp
/// alone, and `from_timestamp` rejects only seconds whose day count
/// falls outside chrono's representable years and nanosecond parts of a
/// second or more, so every `formattable` timestamp is accepted.
#[verifier::external_body]
fn format_rfc3339(secs: i64, nanos: u32) -> (r: Option<String>)
    ensures
        r matches Some(s) ==> s@ == rfc3339_of(secs, nanos),
        formattable(secs, nanos) ==> r is Some,
{
    match chrono::DateTime::<chrono::Utc>::from_timestamp(secs, nanos) {
        Some(dt) => Some(dt.to_rfc3339()),
        None => None,
    }
}

/// Mathematical image of an `Entry`.
pub ghost struct EntryView {
    pub id: Seq<char>,
    pub title: Seq<char>,
    pub updated: Seq<char>,
    pub href: Seq<char>,
}

impl View for Entry {
    type V = EntryView;

    open spec fn view(&self) -> EntryView {
        EntryView {
            id: self.id@,
            title: self.title@,
            updated: self.updated@,
            href: self.link.href@,
        }
    }
}

/// The entry a candidate yields: its identifier is the base URL followed
/// by the file name, its link carries the same text, its title is the
/// document's first heading (or the fallback), and its `updated` field
/// is the modification time rendered as RFC 3339.
pub open spec fn entry_spec(base: Seq<char>, c: CandView, doc: Seq<Option<Seq<char>>>) -> EntryView {
    EntryView {
        id: base + c.name,
        title: title_of(doc, "No title found"@),
        updated: rfc3339_of(c.secs, c.nanos),
        href: base + c.name,
    }
}

/// The entries of the whole candidate sequence, in order.
pub open spec fn entries_spec(
    base: Seq<char>,
    cands: Seq<CandView>,
    docs: Seq<Seq<Option<Seq<char>>>>,
) -> Seq<EntryView> {
    Seq::new(cands.len(), |i: int| entry_spec(base, cands[i], docs[i]))
}

/// The mathematical image of an entry vector.
pub open spec fn eviews(s: Seq<Entry>) -> Seq<EntryView> {
    s.map_values(|e: Entry| e@)
}

/// An entry's `id` and its link's `href` are byte-identical, both the
/// base URL concatenated with the file name.
pub proof fn lemma_entry_id_href(base: Seq<char>, c: CandView, doc: Seq<Option<Seq<char>>>)
    ensures
        entry_spec(base, c, doc).id == entry_spec(base, c, doc).href,
        entry_spec(base, c, doc).id == base + c.name,
{
}

/// Entry construction is a pure function of the candidates and the
/// document contents: two runs over an unchanged directory yield
/// identical entries.
pub proof fn lemma_entries_deterministic(
    base: Seq<char>,
    cands1: Seq<CandView>,
    docs1: Seq<Seq<Option<Seq<char>>>>,
    cands2: Seq<CandView>,
    docs2: Seq<Seq<Option<Seq<char>>>>,
)
    requires
        cands1 == cands2,
        docs1 == docs2,
    ensures
        entries_spec(base, cands1, docs1) == entries_spec(base, cands2, docs2),
{
}

/// Identifies this tool in the feed's `<generator>` element.
pub fn get_generator() -> (g: Generator)
    ensures
        g.uri@ == "https://github.com/mk270/gemfeed2atom"@,
        g.version@ == "1.0.0"@,
        g.contents@ == "gemfeed2atom"@,
{
    Generator {
        uri: "https://github.com/mk270/gemfeed2atom".to_owned(),
        version: "1.0.0".to_owned(),
        contents: "gemfeed2atom".to_owned(),
    }
}

/// The two feed-level links: `self` points at the feed document itself
/// (the base URL followed by `atom.xml`), `alternate` at the gemlog.
pub fn get_links(base_url: String) -> (links: Vec<Link>)
    ensures
        links@.len() == 2,
        links@[0].href@ == base_url@ + "atom.xml"@,
        links@[0].rel@ == "self"@,
        links@[1].href@ == base_url@,
        links@[1].rel@ == "alternate"@,
{
    let l1href = base_url.clone().concat("atom.xml");
    let l1 = Link { href: l1href, rel: "self".to_owned() };
    let l2 = Link { href: base_url, rel: "alternate".to_owned() };
    let mut links: Vec<Link> = Vec::new();
    links.push(l1);
    links.push(l2);
    links
}

/// Builds one entry per selected candidate, in selection order. Each
/// candidate is paired with the lines of its document in `docs`; a
/// document that could not be read is an empty line sequence.
pub fn get_entries(candidates: Vec<Candidate>, docs: Vec<Vec<Option<String>>>, base_url: &str) -> (r:
    Vec<Entry>)
    requires
        candidates@.len() == docs@.len(),
        forall|i: int|
            0 <= i < candidates@.len() ==> formattable(
                (#[trigger] candidates@[i]).secs,
                candidates@[i].nanos,
            ),
    ensures
        eviews(r@) == entries_spec(base_url@, views(candidates@), docs.deep_view()),
{
    let mut entries: Vec<Entry> = Vec::new();
    let n = candidates.len();
    let mut i: usize = 0;
    while i < n
        invariant
            i <= n,
            n == candidates@.len(),
            docs@.len() == n,
            entries@.len() == i,
            forall|k: int|
                0 <= k < candidates@.len() ==> formattable(
                    (#[trigger] candidates@[k]).secs,
                    candidates@[k].nanos,
                ),
            forall|k: int|
                0 <= k < i ==> eviews(entries@)[k] == entry_spec(
                    base_url@,
                    views(candidates@)[k],
                    #[trigger] docs.deep_view()[k],
                ),
        decreases n - i,
    {
        let c = &candidates[i];
        let id = String::from_str(base_url).concat(c.name.as_str());
        let title = get_title(&docs[i]);
        let updated = format_rfc3339(c.secs, c.nanos).unwrap();
        let link = BareLink { href: id.clone() };
        let e = Entry { id, title, updated, link };
        proof {
            assert(docs.deep_view()[i as int] == docs@[i as int].deep_view());
            assert(e@ == entry_spec(
                base_url@,
                views(candidates@)[i as int],
                docs.deep_view()[i as int],
            ));
        }
        entries.push(e);
        i += 1;
    }
    proof {
        assert(eviews(entries@) =~= entries_spec(base_url@, views(candidates@), docs.deep_view()));
    }
    entries
}

/// Assembles the whole feed: the Atom namespace, the base URL as the
/// feed's identifier, the given title, the generation time rendered as
/// RFC 3339, the two feed-level links, the generator identity, and one
/// entry per selected candidate.
pub fn get_feed(
    base_url: String,
    title: String,
    now_secs: i64,
    now_nanos: u32,
    candidates: Vec<Candidate>,
    docs: Vec<Vec<Option<String>>>,
) -> (f: Feed)
    requires
        formattable(now_secs, now_nanos),
        candidates@.len() == docs@.len(),
        forall|i: int|
            0 <= i < candidates@.len() ==> formattable(
                (#[trigger] candidates@[i]).secs,
                candidates@[i].nanos,
            ),
    ensures
        f.xmlns@ == "http://www.w3.org/2005/Atom"@,
        f.id@ == base_url@,
        f.title@ == title@,
        f.updated@ == rfc3339_of(now_secs, now_nanos),
        f.links@.len() == 2,
        f.links@[0].href@ == base_url@ + "atom.xml"@,
        f.links@[0].rel@ == "self"@,
        f.links@[1].href@ == base_url@,
        f.links@[1].rel@ == "alternate"@,
        f.generator.uri@ == "https://github.com/mk270/gemfeed2atom"@,
        f.generator.version@ == "1.0.0"@,
        f.generator.contents@ == "gemfeed2atom"@,
        eviews(f.entry@) == entries_spec(base_url@, views(candidates@), docs.deep_view()),
{
    let xmlns = "http://www.w3.org/2005/Atom".to_owned();
    let id = base_url.clone();
    let links = get_links(base_url.clone());
    let updated = format_rfc3339(now_secs, now_nanos).unwrap();
    let generator = get_generator();
    let entries = get_entries(candidates, docs, base_url.as_str());
    Feed { xmlns, id, title, updated, links, generator, entry: entries }
}

} // verus!
