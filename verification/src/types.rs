use vstd::prelude::*;

verus! {

/// One `<link>` element in the feed header, carrying both `href` and `rel`.
pub struct Link {
    pub href: String,
    pub rel: String,
}

/// The `<link>` element inside an individual entry, carrying only `href`.
pub struct BareLink {
    pub href: String,
}

/// The `<generator>` element identifying the tool that produced the feed.
pub struct Generator {
    pub uri: String,
    pub version: String,
    pub contents: String,
}

/// One `<entry>` element: a single gemlog post.
pub struct Entry {
    pub id: String,
    pub title: String,
    pub updated: String,
    pub link: BareLink,
}

/// The top-level `<feed>` element, ready for serialization.
pub struct Feed {
    pub xmlns: String,
    pub id: String,
    pub title: String,
    pub updated: String,
    pub links: Vec<Link>,
    pub generator: Generator,
    pub entry: Vec<Entry>,
}

/// Metadata of one directory entry, as the scanner reports it: the file
/// name (`None` when it cannot be decoded as text), the permission bits,
/// whether the entry is a regular file, and the modification time as
/// seconds and nanoseconds since the Unix epoch.
pub struct RawEntry {
    pub name: Option<String>,
    pub mode: u32,
    pub is_file: bool,
    pub secs: i64,
    pub nanos: u32,
}

/// A post that survived eligibility filtering: its file name and its
/// modification time.
pub struct Candidate {
    pub name: String,
    pub secs: i64,
    pub nanos: u32,
}

/// Mathematical image of a `RawEntry`.
pub ghost struct RawView {
    pub name: Option<Seq<char>>,
    pub mode: u32,
    pub is_file: bool,
    pub secs: i64,
    pub nanos: u32,
}

/// Mathematical image of a `Candidate`.
pub ghost struct CandView {
    pub name: Seq<char>,
    pub secs: i64,
    pub nanos: u32,
}

impl View for RawEntry {
    type V = RawView;

    open spec fn view(&self) -> RawView {
        RawView {
            name: match self.name {
                Some(n) => Some(n@),
                None => None,
            },
            mode: self.mode,
            is_file: self.is_file,
            secs: self.secs,
            nanos: self.nanos,
        }
    }
}

impl View for Candidate {
    type V = CandView;

    open spec fn view(&self) -> CandView {
        CandView { name: self.name@, secs: self.secs, nanos: self.nanos }
    }
}

} // verus!
