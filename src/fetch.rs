//! What to fetch for a candidate, and what a fetched document contributes.
use vstd::prelude::*;
use vstd::string::*;
use crate::aggregate::{CandidateOutcome, Entry, EntryView, entry_views};
use crate::error::HarvestError;
use crate::extract::{collect_hashes, find_string_by_key, hashes_in, key_in};
use crate::json::{JsonView, json_parses, pairs_view, parse_document, parsed_json, value_view};
use crate::text::{decimal, decimal_string, ends_with, is_suffix};

verus! {

/// The kind of an item of a directory listing.
#[derive(Debug, PartialEq, Eq, Structural)]
pub enum ContentKind {
    File,
    Dir,
    Other,
}

/// One item of a directory listing.
pub struct ContentItem {
    pub name: String,
    pub path: String,
    pub kind: ContentKind,
}

impl ContentItem {
    pub fn duplicate(&self) -> (r: ContentItem)
        ensures
            r.name@ == self.name@,
            r.path@ == self.path@,
            r.kind == self.kind,
    {
        let kind = match self.kind {
            ContentKind::File => ContentKind::File,
            ContentKind::Dir => ContentKind::Dir,
            ContentKind::Other => ContentKind::Other,
        };
        ContentItem { name: self.name.clone(), path: self.path.clone(), kind }
    }
}

/// How a listing request was answered.
#[derive(Debug, PartialEq, Eq, Structural)]
pub enum ListingReply {
    /// The listing came back.
    Listed,
    /// The path does not exist at that revision.
    Absent,
    /// Any other client or server error.
    Failed,
}

/// Classifies an HTTP status: a 2xx carries a listing, 404 is absence, and
/// anything else is a failure.
pub open spec fn reply_of(status: u16) -> ListingReply {
    if 200 <= status <= 299 {
        ListingReply::Listed
    } else if status == 404 {
        ListingReply::Absent
    } else {
        ListingReply::Failed
    }
}

pub fn classify_status(status: u16) -> (r: ListingReply)
    ensures
        r == reply_of(status),
{
    if 200 <= status && status <= 299 {
        ListingReply::Listed
    } else if status == 404 {
        ListingReply::Absent
    } else {
        ListingReply::Failed
    }
}

/// The names and paths of the `.json` files of a listing, in listing order.
pub open spec fn json_files(items: Seq<ContentItem>) -> Seq<(Seq<char>, Seq<char>)>
    decreases items.len(),
{
    if items.len() == 0 {
        Seq::empty()
    } else {
        let rest = json_files(items.drop_last());
        let it = items.last();
        if it.kind == ContentKind::File && is_suffix(".json"@, it.name@) {
            rest.push((it.name@, it.path@))
        } else {
            rest
        }
    }
}

/// Keeps the files of a listing whose name ends in `.json`.
pub fn select_json_files(items: &Vec<ContentItem>) -> (r: Vec<ContentItem>)
    ensures
        r@.map_values(|c: ContentItem| (c.name@, c.path@)) == json_files(items@),
        forall|i: int| 0 <= i < r@.len() ==> (#[trigger] r@[i]).kind == ContentKind::File,
{
    let mut out: Vec<ContentItem> = Vec::new();
    let mut i: usize = 0;
    while i < items.len()
        invariant
            i <= items@.len(),
            out@.map_values(|c: ContentItem| (c.name@, c.path@)) == json_files(items@.take(i as int)),
            forall|j: int| 0 <= j < out@.len() ==> (#[trigger] out@[j]).kind == ContentKind::File,
        decreases items@.len() - i,
    {
        let it = &items[i];
        let is_file = match it.kind {
            ContentKind::File => true,
            _ => false,
        };
        let ghost before = out@;
        if is_file && ends_with(it.name.as_str(), ".json") {
            out.push(it.duplicate());
            assert(out@.map_values(|c: ContentItem| (c.name@, c.path@)) =~= before.map_values(
                |c: ContentItem| (c.name@, c.path@)).push((it.name@, it.path@)));
        }
        assert(items@.take(i + 1).drop_last() =~= items@.take(i as int));
        i = i + 1;
    }
    assert(items@.take(items@.len() as int) =~= items@);
    out
}

/// The names of the directories of a listing, in listing order.
pub open spec fn dir_names(items: Seq<ContentItem>) -> Seq<Seq<char>>
    decreases items.len(),
{
    if items.len() == 0 {
        Seq::empty()
    } else {
        let rest = dir_names(items.drop_last());
        if items.last().kind == ContentKind::Dir {
            rest.push(items.last().name@)
        } else {
            rest
        }
    }
}

/// The directories of a listing; an error if there is none.
pub fn select_dirs(items: &Vec<ContentItem>) -> (r: Result<Vec<String>, HarvestError>)
    ensures
        dir_names(items@).len() == 0 <==> r == Err::<Vec<String>, HarvestError>(HarvestError::EmptyResult),
        dir_names(items@).len() > 0 <==> r is Ok,
        r is Ok ==> r->Ok_0@.map_values(|s: String| s@) == dir_names(items@),
{
    let mut out: Vec<String> = Vec::new();
    let mut i: usize = 0;
    while i < items.len()
        invariant
            i <= items@.len(),
            out@.map_values(|s: String| s@) == dir_names(items@.take(i as int)),
        decreases items@.len() - i,
    {
        let ghost before = out@;
        if let ContentKind::Dir = items[i].kind {
            out.push(items[i].name.clone());
            assert(out@.map_values(|s: String| s@) =~= before.map_values(|s: String| s@).push(items@[i as int].name@));
        }
        assert(items@.take(i + 1).drop_last() =~= items@.take(i as int));
        i = i + 1;
    }
    assert(items@.take(items@.len() as int) =~= items@);
    if out.len() == 0 {
        Err(HarvestError::EmptyResult)
    } else {
        Ok(out)
    }
}

/// Whether a listing holds a file called `name`.
pub fn has_file(items: &Vec<ContentItem>, name: &String) -> (r: bool)
    ensures
        r == exists|i: int| 0 <= i < items@.len() && (#[trigger] items@[i]).kind == ContentKind::File
            && items@[i].name@ == name@,
{
    let mut i: usize = 0;
    while i < items.len()
        invariant
            i <= items@.len(),
            forall|j: int| 0 <= j < i ==> !((#[trigger] items@[j]).kind == ContentKind::File
                && items@[j].name@ == name@),
        decreases items@.len() - i,
    {
        let is_file = match items[i].kind {
            ContentKind::File => true,
            _ => false,
        };
        if is_file && items[i].name.eq(name) {
            return true;
        }
        i = i + 1;
    }
    false
}

/// The API address listing the tags of a repository, one page of them.
pub open spec fn tags_url(owner: Seq<char>, repo: Seq<char>, per_page: nat, page: nat) -> Seq<char> {
    "https://api.github.com/repos/"@ + owner + "/"@ + repo + "/tags?per_page="@ + decimal(per_page)
        + "&page="@ + decimal(page)
}

/// The API address listing a directory of a repository at a revision.
pub open spec fn contents_url(owner: Seq<char>, repo: Seq<char>, path: Seq<char>, rev: Seq<char>) -> Seq<char> {
    "https://api.github.com/repos/"@ + owner + "/"@ + repo + "/contents/"@ + path + "?ref="@ + rev
}

/// The address of the raw content of a file at a revision.
pub open spec fn raw_url(owner: Seq<char>, repo: Seq<char>, rev: Seq<char>, path: Seq<char>) -> Seq<char> {
    "https://raw.githubusercontent.com/"@ + owner + "/"@ + repo + "/"@ + rev + "/"@ + path
}

/// The browsable address of a file at a revision.
pub open spec fn blob_url(owner: Seq<char>, repo: Seq<char>, rev: Seq<char>, path: Seq<char>) -> Seq<char> {
    "https://github.com/"@ + owner + "/"@ + repo + "/blob/"@ + rev + "/"@ + path
}

pub fn tags_url_string(owner: &String, repo: &String, per_page: usize, page: usize) -> (r: String)
    ensures
        r@ == tags_url(owner@, repo@, per_page as nat, page as nat),
{
    let mut s = String::from_str("https://api.github.com/repos/");
    s.append(owner.as_str());
    s.append("/");
    s.append(repo.as_str());
    s.append("/tags?per_page=");
    let pp = decimal_string(per_page);
    s.append(pp.as_str());
    s.append("&page=");
    let p = decimal_string(page);
    s.append(p.as_str());
    s
}

pub fn contents_url_string(owner: &String, repo: &String, path: &String, rev: &String) -> (r: String)
    ensures
        r@ == contents_url(owner@, repo@, path@, rev@),
{
    let mut s = String::from_str("https://api.github.com/repos/");
    s.append(owner.as_str());
    s.append("/");
    s.append(repo.as_str());
    s.append("/contents/");
    s.append(path.as_str());
    s.append("?ref=");
    s.append(rev.as_str());
    s
}

pub fn raw_url_string(owner: &String, repo: &String, rev: &String, path: &String) -> (r: String)
    ensures
        r@ == raw_url(owner@, repo@, rev@, path@),
{
    let mut s = String::from_str("https://raw.githubusercontent.com/");
    s.append(owner.as_str());
    s.append("/");
    s.append(repo.as_str());
    s.append("/");
    s.append(rev.as_str());
    s.append("/");
    s.append(path.as_str());
    s
}

pub fn blob_url_string(owner: &String, repo: &String, rev: &String, path: &String) -> (r: String)
    ensures
        r@ == blob_url(owner@, repo@, rev@, path@),
{
    let mut s = String::from_str("https://github.com/");
    s.append(owner.as_str());
    s.append("/");
    s.append(repo.as_str());
    s.append("/blob/");
    s.append(rev.as_str());
    s.append("/");
    s.append(path.as_str());
    s
}

/// One entry found under a key of a verifier file, if the key holds a string.
pub open spec fn found_entry(found: Option<Seq<char>>, key: Seq<char>, url: Seq<char>, description: Seq<char>) -> Seq<EntryView> {
    match found {
        Some(v) => seq![EntryView { key, value: v, url, description }],
        None => Seq::empty(),
    }
}

/// The entries of a verifier file `name` at tag `tag`: its bytecode hash and
/// its verification parameters hash, each where the document holds one.
pub open spec fn verifier_entries(repo: Seq<char>, tag: Seq<char>, name: Seq<char>, url: Seq<char>, doc: JsonView) -> Seq<EntryView> {
    let key = tag + "/"@ + name;
    found_entry(key_in(doc, "bytecode_hash_hex"@), key + "/bytecode"@, url,
        "Bytecode hash for "@ + name + " for tag "@ + tag + " in "@ + repo)
    + found_entry(key_in(doc, "params_hex"@), key + "/params"@, url,
        "Verification params hash for "@ + name + " for tag "@ + tag + " in "@ + repo)
}

fn describe(lead: &str, name: &String, middle: &str, tag: &String, repo: &String) -> (r: String)
    ensures
        r@ == lead@ + name@ + middle@ + tag@ + " in "@ + repo@,
{
    let mut s = String::from_str(lead);
    s.append(name.as_str());
    s.append(middle);
    s.append(tag.as_str());
    s.append(" in ");
    s.append(repo.as_str());
    s
}

/// Extracts the bytecode hash and the parameters hash of a verifier file.
pub fn extract_verifier_entries(repo: &String, tag: &String, name: &String, url: &String, doc: &serde_json::Value) -> (r: Vec<Entry>)
    ensures
        entry_views(r@) == verifier_entries(repo@, tag@, name@, url@, value_view(*doc)),
{
    let mut key = tag.clone();
    key.append("/");
    key.append(name.as_str());
    let mut out: Vec<Entry> = Vec::new();
    let bytecode = find_string_by_key(doc, &String::from_str("bytecode_hash_hex"));
    if let Some(v) = bytecode {
        let mut k = key.clone();
        k.append("/bytecode");
        let d = describe("Bytecode hash for ", name, " for tag ", tag, repo);
        out.push(Entry { key: k, value: v, url: url.clone(), description: d });
    }
    let params = find_string_by_key(doc, &String::from_str("params_hex"));
    if let Some(v) = params {
        let mut k = key.clone();
        k.append("/params");
        let d = describe("Verification params hash for ", name, " for tag ", tag, repo);
        out.push(Entry { key: k, value: v, url: url.clone(), description: d });
    }
    assert(entry_views(out@) =~= verifier_entries(repo@, tag@, name@, url@, value_view(*doc)));
    out
}

/// The entry for one hash found in a commitments file of directory `dir`.
pub open spec fn commitment_entry(repo: Seq<char>, dir: Seq<char>, url: Seq<char>, h: (Seq<char>, Seq<char>)) -> EntryView {
    EntryView {
        key: h.0,
        value: h.1,
        url,
        description: "Boojum Hash for "@ + h.0 + " version "@ + dir + " in "@ + repo,
    }
}

/// The entries of a commitments file: every hash-shaped string, keyed by its
/// path below the directory name, in document order.
pub open spec fn commitment_entries(repo: Seq<char>, dir: Seq<char>, url: Seq<char>, doc: JsonView) -> Seq<EntryView> {
    hashes_in(dir, doc).map_values(|h: (Seq<char>, Seq<char>)| commitment_entry(repo, dir, url, h))
}

/// Extracts every hash of a commitments file of directory `dir`.
pub fn extract_commitment_entries(repo: &String, dir: &String, url: &String, doc: &serde_json::Value) -> (r: Vec<Entry>)
    ensures
        entry_views(r@) == commitment_entries(repo@, dir@, url@, value_view(*doc)),
{
    let mut hits: Vec<(String, String)> = Vec::new();
    collect_hashes(dir, doc, &mut hits);
    assert(pairs_view(hits@) =~= hashes_in(dir@, value_view(*doc)));
    let mut out: Vec<Entry> = Vec::new();
    let mut i: usize = 0;
    while i < hits.len()
        invariant
            i <= hits@.len(),
            pairs_view(hits@) == hashes_in(dir@, value_view(*doc)),
            entry_views(out@) == pairs_view(hits@).take(i as int).map_values(
                |h: (Seq<char>, Seq<char>)| commitment_entry(repo@, dir@, url@, h)),
        decreases hits@.len() - i,
    {
        let k = hits[i].0.clone();
        let v = hits[i].1.clone();
        let d = describe("Boojum Hash for ", &k, " version ", dir, repo);
        let ghost before = entry_views(out@);
        out.push(Entry { key: k, value: v, url: url.clone(), description: d });
        assert(pairs_view(hits@)[i as int] == (hits@[i as int].0@, hits@[i as int].1@));
        assert(entry_views(out@) =~= before.push(commitment_entry(repo@, dir@, url@, pairs_view(hits@)[i as int])));
        assert(pairs_view(hits@).take(i + 1) =~= pairs_view(hits@).take(i as int).push(pairs_view(hits@)[i as int]));
        assert(entry_views(out@) =~= pairs_view(hits@).take(i + 1).map_values(
            |h: (Seq<char>, Seq<char>)| commitment_entry(repo@, dir@, url@, h)));
        i = i + 1;
    }
    assert(pairs_view(hits@).take(hits@.len() as int) =~= pairs_view(hits@));
    out
}

/// What a sub-listing's status decides for a candidate: nothing yet when the
/// listing came back, else the candidate ends, absent or failed.
pub fn sublisting_outcome(status: u16, what: &String) -> (r: Option<CandidateOutcome>)
    ensures
        reply_of(status) == ListingReply::Listed <==> r is None,
        reply_of(status) == ListingReply::Absent ==> r matches Some(CandidateOutcome::Absent),
        reply_of(status) == ListingReply::Failed ==> (r matches Some(CandidateOutcome::FetchFailed(m)) && m@ == what@),
{
    match classify_status(status) {
        ListingReply::Listed => None,
        ListingReply::Absent => Some(CandidateOutcome::Absent),
        ListingReply::Failed => Some(CandidateOutcome::FetchFailed(what.clone())),
    }
}

fn invalid_document(what: &String) -> (r: String)
    ensures
        r@ == what@ + ": invalid JSON"@,
{
    let mut m = what.clone();
    m.append(": invalid JSON");
    m
}

/// Parses a verifier file `name` fetched at tag `tag` and extracts its
/// entries; `source` names the file in the failure message.
pub fn verifier_outcome(repo: &String, tag: &String, name: &String, url: &String, source: &String, text: &String) -> (r: CandidateOutcome)
    ensures
        json_parses(text@) ==> (r matches CandidateOutcome::Extracted(es)
            && entry_views(es@) == verifier_entries(repo@, tag@, name@, url@, parsed_json(text@)->Some_0)),
        !json_parses(text@) ==> (r matches CandidateOutcome::ExtractFailed(m)
            && m@ == source@ + ": invalid JSON"@),
{
    match parse_document(text) {
        Ok(doc) => {
            let es = extract_verifier_entries(repo, tag, name, url, &doc);
            CandidateOutcome::Extracted(es)
        },
        Err(_) => CandidateOutcome::ExtractFailed(invalid_document(source)),
    }
}

/// Parses the commitments file of directory `dir` and extracts its hashes;
/// `source` names the file in the failure message.
pub fn commitment_outcome(repo: &String, dir: &String, url: &String, source: &String, text: &String) -> (r: CandidateOutcome)
    ensures
        json_parses(text@) ==> (r matches CandidateOutcome::Extracted(es)
            && entry_views(es@) == commitment_entries(repo@, dir@, url@, parsed_json(text@)->Some_0)),
        !json_parses(text@) ==> (r matches CandidateOutcome::ExtractFailed(m)
            && m@ == source@ + ": invalid JSON"@),
{
    match parse_document(text) {
        Ok(doc) => {
            let es = extract_commitment_entries(repo, dir, url, &doc);
            CandidateOutcome::Extracted(es)
        },
        Err(_) => CandidateOutcome::ExtractFailed(invalid_document(source)),
    }
}

} // verus!
