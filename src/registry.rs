//! Entries for the contracts that a bridgehub registry knows of.
use vstd::prelude::*;
use vstd::string::*;
use crate::aggregate::{Entry, EntryView, entry_views};
use crate::error::HarvestError;
use crate::json::{JsonView, Node, node_of, value_view};
use crate::text::{is_prefix, starts_with};

verus! {

/// The lower-case hexadecimal digit for `n < 16`.
pub open spec fn nibble_char(n: u8) -> char {
    if n == 0 { '0' } else if n == 1 { '1' } else if n == 2 { '2' } else if n == 3 { '3' }
    else if n == 4 { '4' } else if n == 5 { '5' } else if n == 6 { '6' } else if n == 7 { '7' }
    else if n == 8 { '8' } else if n == 9 { '9' } else if n == 10 { 'a' } else if n == 11 { 'b' }
    else if n == 12 { 'c' } else if n == 13 { 'd' } else if n == 14 { 'e' } else { 'f' }
}

/// Two lower-case hexadecimal digits for each byte.
pub open spec fn hex_digits(b: Seq<u8>) -> Seq<char>
    decreases b.len(),
{
    if b.len() == 0 {
        Seq::empty()
    } else {
        hex_digits(b.drop_last()) + seq![nibble_char(b.last() / 16), nibble_char(b.last() % 16)]
    }
}

/// An address as `0x` and lower-case hexadecimal.
pub open spec fn hex_lower(b: Seq<u8>) -> Seq<char> {
    "0x"@ + hex_digits(b)
}

fn nibble_str(n: u8) -> (r: &'static str)
    requires
        n < 16,
    ensures
        r@ == seq![nibble_char(n)],
{
    proof {
        reveal_strlit("0"); reveal_strlit("1"); reveal_strlit("2"); reveal_strlit("3");
        reveal_strlit("4"); reveal_strlit("5"); reveal_strlit("6"); reveal_strlit("7");
        reveal_strlit("8"); reveal_strlit("9"); reveal_strlit("a"); reveal_strlit("b");
        reveal_strlit("c"); reveal_strlit("d"); reveal_strlit("e"); reveal_strlit("f");
    }
    if n == 0 { "0" } else if n == 1 { "1" } else if n == 2 { "2" } else if n == 3 { "3" }
    else if n == 4 { "4" } else if n == 5 { "5" } else if n == 6 { "6" } else if n == 7 { "7" }
    else if n == 8 { "8" } else if n == 9 { "9" } else if n == 10 { "a" } else if n == 11 { "b" }
    else if n == 12 { "c" } else if n == 13 { "d" } else if n == 14 { "e" } else { "f" }
}

/// Writes an address as `0x` and lower-case hexadecimal.
pub fn address_hex(b: &[u8; 20]) -> (r: String)
    ensures
        r@ == hex_lower(b@),
{
    let mut s = String::from_str("0x");
    let mut i: usize = 0;
    while i < 20
        invariant
            i <= 20,
            b@.len() == 20,
            s@ == "0x"@ + hex_digits(b@.take(i as int)),
        decreases 20 - i,
    {
        let x = b[i];
        s.append(nibble_str(x / 16));
        s.append(nibble_str(x % 16));
        assert(b@.take(i + 1).drop_last() =~= b@.take(i as int));
        assert(s@ =~= "0x"@ + hex_digits(b@.take(i + 1)));
        i = i + 1;
    }
    assert(b@.take(20) =~= b@);
    s
}

/// The EIP-55 mixed-case text of an address, as alloy computes it.
pub uninterp spec fn checksummed(b: Seq<u8>) -> Seq<char>;

/// Relies on alloy_primitives' `Address::to_checksum(None)`: the EIP-55 text of
/// the address, which depends on its bytes alone.
#[verifier::external_body]
fn checksum_text(b: &[u8; 20]) -> (r: String)
    ensures
        r@ == checksummed(b@),
{
    alloy::primitives::Address::from(*b).to_checksum(None)
}

/// A chain registered with a bridgehub and the address of its diamond proxy.
pub struct ChainItem {
    pub chain_id: String,
    pub address: [u8; 20],
}

/// What the registry of one ecosystem answered.
pub struct RegistryReading {
    pub bridgehub: [u8; 20],
    pub shared_bridge: [u8; 20],
    pub admin: [u8; 20],
    pub asset_router: [u8; 20],
    pub chains: Vec<ChainItem>,
}

/// The last name given to chain `id` in `mapping`.
pub open spec fn lookup_last(mapping: Seq<(Seq<char>, Seq<char>)>, id: Seq<char>) -> Option<Seq<char>>
    decreases mapping.len(),
{
    if mapping.len() == 0 {
        None
    } else if mapping.last().0 == id {
        Some(mapping.last().1)
    } else {
        lookup_last(mapping.drop_last(), id)
    }
}

/// The name of chain `id`: the one the mapping gives, else `chain_<id>`.
pub open spec fn chain_name(mapping: Seq<(Seq<char>, Seq<char>)>, id: Seq<char>) -> Seq<char> {
    match lookup_last(mapping, id) {
        Some(n) => n,
        None => "chain_"@ + id,
    }
}

pub open spec fn mapping_view(m: Seq<(String, String)>) -> Seq<(Seq<char>, Seq<char>)> {
    m.map_values(|p: (String, String)| (p.0@, p.1@))
}

/// Looks up the name of a chain.
pub fn name_of_chain(mapping: &Vec<(String, String)>, id: &String) -> (r: String)
    ensures
        r@ == chain_name(mapping_view(mapping@), id@),
{
    let mut found: Option<usize> = None;
    let mut i: usize = 0;
    while i < mapping.len()
        invariant
            i <= mapping@.len(),
            match found {
                Some(j) => j < i && lookup_last(mapping_view(mapping@.take(i as int)), id@) == Some(mapping@[j as int].1@),
                None => lookup_last(mapping_view(mapping@.take(i as int)), id@) is None,
            },
        decreases mapping@.len() - i,
    {
        assert(mapping_view(mapping@.take(i + 1)).drop_last() =~= mapping_view(mapping@.take(i as int)));
        if mapping[i].0.eq(id) {
            found = Some(i);
        }
        i = i + 1;
    }
    assert(mapping@.take(mapping@.len() as int) =~= mapping@);
    match found {
        Some(j) => mapping[j].1.clone(),
        None => {
            let mut s = String::from_str("chain_");
            s.append(id.as_str());
            s
        },
    }
}

/// The entry of one registered chain.
pub open spec fn chain_entry(eco: Seq<char>, mapping: Seq<(Seq<char>, Seq<char>)>, id: Seq<char>, addr: Seq<u8>) -> EntryView {
    EntryView {
        key: eco + " DiamondProxy - "@ + id + " "@ + chain_name(mapping, id),
        value: hex_lower(addr),
        url: "https://etherscan.io/address/"@ + hex_lower(addr),
        description: "Diamond Proxy for "@ + id,
    }
}

/// The entry of one of the registry's own contracts.
pub open spec fn fixed_entry(eco: Seq<char>, label: Seq<char>, addr: Seq<u8>, description: Seq<char>) -> EntryView {
    EntryView {
        key: eco + " "@ + label,
        value: hex_lower(addr),
        url: "https://etherscan.io/address/"@ + checksummed(addr),
        description,
    }
}

/// The entries of one ecosystem: each registered chain in order, then the
/// bridgehub, the shared bridge, the admin and the asset router.
pub open spec fn registry_entries(eco: Seq<char>, mapping: Seq<(Seq<char>, Seq<char>)>, r: RegistryReading) -> Seq<EntryView> {
    r.chains@.map_values(|c: ChainItem| chain_entry(eco, mapping, c.chain_id@, c.address@))
        + seq![
        fixed_entry(eco, "Bridgehub"@, r.bridgehub@, "Bridgehub contract address"@),
        fixed_entry(eco, "SharedBridge"@, r.shared_bridge@, "Shared Bridge contract address"@),
        fixed_entry(eco, "Admin"@, r.admin@, "Admin contract address"@),
        fixed_entry(eco, "AssetRouter"@, r.asset_router@, "Asset Router contract address"@),
    ]
}

fn fixed(eco: &String, label: &str, addr: &[u8; 20], description: &str) -> (r: Entry)
    ensures
        r@ == fixed_entry(eco@, label@, addr@, description@),
{
    let mut key = eco.clone();
    key.append(" ");
    key.append(label);
    let mut url = String::from_str("https://etherscan.io/address/");
    let c = checksum_text(addr);
    url.append(c.as_str());
    Entry { key, value: address_hex(addr), url, description: String::from_str(description) }
}

/// Builds the entries of one ecosystem from what its registry answered.
pub fn registry_entries_of(eco: &String, mapping: &Vec<(String, String)>, reading: &RegistryReading) -> (r: Vec<Entry>)
    ensures
        entry_views(r@) == registry_entries(eco@, mapping_view(mapping@), *reading),
{
    let ghost mv = mapping_view(mapping@);
    let ghost f = |c: ChainItem| chain_entry(eco@, mv, c.chain_id@, c.address@);
    let mut out: Vec<Entry> = Vec::new();
    let mut i: usize = 0;
    while i < reading.chains.len()
        invariant
            i <= reading.chains@.len(),
            mv == mapping_view(mapping@),
            f == (|c: ChainItem| chain_entry(eco@, mv, c.chain_id@, c.address@)),
            entry_views(out@) == reading.chains@.take(i as int).map_values(f),
        decreases reading.chains@.len() - i,
    {
        let c = &reading.chains[i];
        let name = name_of_chain(mapping, &c.chain_id);
        let mut key = eco.clone();
        key.append(" DiamondProxy - ");
        key.append(c.chain_id.as_str());
        key.append(" ");
        key.append(name.as_str());
        let value = address_hex(&c.address);
        let mut url = String::from_str("https://etherscan.io/address/");
        url.append(value.as_str());
        let mut description = String::from_str("Diamond Proxy for ");
        description.append(c.chain_id.as_str());
        let ghost before = entry_views(out@);
        out.push(Entry { key, value, url, description });
        assert(entry_views(out@) =~= before.push(f(reading.chains@[i as int])));
        assert(reading.chains@.take(i + 1) =~= reading.chains@.take(i as int).push(reading.chains@[i as int]));
        assert(entry_views(out@) =~= reading.chains@.take(i + 1).map_values(f));
        i = i + 1;
    }
    assert(reading.chains@.take(reading.chains@.len() as int) =~= reading.chains@);
    let ghost chains_part = entry_views(out@);
    out.push(fixed(eco, "Bridgehub", &reading.bridgehub, "Bridgehub contract address"));
    out.push(fixed(eco, "SharedBridge", &reading.shared_bridge, "Shared Bridge contract address"));
    out.push(fixed(eco, "Admin", &reading.admin, "Admin contract address"));
    out.push(fixed(eco, "AssetRouter", &reading.asset_router, "Asset Router contract address"));
    assert(entry_views(out@) =~= registry_entries(eco@, mv, *reading));
    out
}

/// The members of an object, as plain data.
pub open spec fn members_view(m: Seq<(String, serde_json::Value)>) -> Seq<(Seq<char>, JsonView)> {
    m.map_values(|p: (String, serde_json::Value)| (p.0@, value_view(p.1)))
}

/// The value of the first member of an object called `k`, from the `i`-th on.
pub open spec fn member_at(m: Seq<(Seq<char>, JsonView)>, k: Seq<char>, i: int) -> Option<JsonView>
    decreases m.len() - i,
{
    if i < 0 || i >= m.len() {
        None
    } else if m[i].0 == k {
        Some(m[i].1)
    } else {
        member_at(m, k, i + 1)
    }
}

/// The index of the first member of an object called `k`.
pub fn find_member(m: &Vec<(String, serde_json::Value)>, k: &String) -> (r: Option<usize>)
    ensures
        member_at(members_view(m@), k@, 0) is None <==> r is None,
        r matches Some(i) ==> i < m@.len() && member_at(members_view(m@), k@, 0) == Some(value_view(m@[i as int].1)),
{
    let ghost mv = members_view(m@);
    let mut i: usize = 0;
    while i < m.len()
        invariant
            mv == members_view(m@),
            i <= m@.len(),
            member_at(mv, k@, 0) == member_at(mv, k@, i as int),
        decreases m@.len() - i,
    {
        assert(mv[i as int] == (m@[i as int].0@, value_view(m@[i as int].1)));
        if m[i].0.eq(k) {
            return Some(i);
        }
        i = i + 1;
    }
    None
}

/// The text with white space taken off both ends, as `str::trim` does it.
pub uninterp spec fn trimmed(s: Seq<char>) -> Seq<char>;

/// Relies on `str::trim`: the result depends on the characters alone.
#[verifier::external_body]
fn trim_text(s: &str) -> (r: String)
    ensures
        r@ == trimmed(s@),
{
    s.trim().to_string()
}

/// What one member of the chain list adds: a member whose key starts with
/// `chain_id for` names the chain after that prefix, trimmed, and must hold a
/// `value`; a string `value` is the chain id, any other is passed over.
pub open spec fn mapping_step(acc: Option<Seq<(Seq<char>, Seq<char>)>>, e: (Seq<char>, JsonView)) -> Option<Seq<(Seq<char>, Seq<char>)>> {
    match acc {
        None => None,
        Some(a) => if is_prefix("chain_id for"@, e.0) {
            match e.1 {
                JsonView::Object(m) => match member_at(m, "value"@, 0) {
                    Some(JsonView::Str(id)) => Some(a.push((id, trimmed(e.0.skip(12))))),
                    Some(_) => Some(a),
                    None => None,
                },
                _ => None,
            }
        } else {
            Some(a)
        },
    }
}

/// The pairs of chain id and chain name of a list of members, in order.
pub open spec fn mapping_of(es: Seq<(Seq<char>, JsonView)>) -> Option<Seq<(Seq<char>, Seq<char>)>>
    decreases es.len(),
{
    if es.len() == 0 {
        Some(Seq::empty())
    } else {
        mapping_step(mapping_of(es.drop_last()), es.last())
    }
}

/// The chain names of a chain list document: the members of its `items` object.
pub open spec fn chain_mapping_of(doc: JsonView) -> Option<Seq<(Seq<char>, Seq<char>)>> {
    match doc {
        JsonView::Object(m) => match member_at(m, "items"@, 0) {
            Some(JsonView::Object(items)) => mapping_of(items),
            _ => None,
        },
        _ => None,
    }
}

/// Reads the chain names of a chain list document; `Malformed` where the
/// document lacks its `items` object or a chain lacks its `value`.
pub fn chain_mapping(doc: &serde_json::Value) -> (r: Result<Vec<(String, String)>, HarvestError>)
    ensures
        chain_mapping_of(value_view(*doc)) is None <==> r == Err::<Vec<(String, String)>, HarvestError>(HarvestError::Malformed),
        chain_mapping_of(value_view(*doc)) is Some <==> r is Ok,
        r matches Ok(v) ==> chain_mapping_of(value_view(*doc)) == Some(mapping_view(v@)),
{
    let top = match node_of(doc) {
        Node::Object(m) => m,
        _ => return Err(HarvestError::Malformed),
    };
    let at = find_member(&top, &String::from_str("items"));
    let items = match at {
        Some(j) => match node_of(&top[j].1) {
            Node::Object(items) => items,
            _ => return Err(HarvestError::Malformed),
        },
        None => return Err(HarvestError::Malformed),
    };
    let ghost iv = members_view(items@);
    let prefix = String::from_str("chain_id for");
    let value_key = String::from_str("value");
    proof {
        reveal_strlit("chain_id for");
        assert("chain_id for"@.len() == 12);
    }
    let mut out: Vec<(String, String)> = Vec::new();
    let mut i: usize = 0;
    assert(iv.take(0) =~= Seq::<(Seq<char>, JsonView)>::empty());
    assert(mapping_view(out@) =~= Seq::<(Seq<char>, Seq<char>)>::empty());
    while i < items.len()
        invariant
            i <= items@.len(),
            iv == members_view(items@),
            chain_mapping_of(value_view(*doc)) == mapping_of(iv),
            prefix@ == "chain_id for"@,
            prefix@.len() == 12,
            value_key@ == "value"@,
            mapping_of(iv.take(i as int)) == Some(mapping_view(out@)),
        decreases items@.len() - i,
    {
        let key = &items[i].0;
        assert(iv.take(i + 1).drop_last() =~= iv.take(i as int));
        assert(iv.take(i + 1).last() == iv[i as int]);
        assert(iv[i as int] == (key@, value_view(items@[i as int].1)));
        if starts_with(key.as_str(), prefix.as_str()) {
            let m = match node_of(&items[i].1) {
                Node::Object(m) => m,
                _ => {
                    proof { lemma_mapping_stays_none(iv, i as int + 1); }
                    return Err(HarvestError::Malformed);
                },
            };
            match find_member(&m, &value_key) {
                Some(j) => {
                    if let Node::Str(id) = node_of(&m[j].1) {
                        let n = key.as_str().unicode_len();
                        let rest = key.as_str().substring_char(12, n);
                        let name = trim_text(rest);
                        let ghost before = mapping_view(out@);
                        out.push((id, name));
                        assert(key@.skip(12) =~= key@.subrange(12, n as int));
                        assert(mapping_view(out@) =~= before.push((id@, trimmed(key@.skip(12)))));
                    }
                },
                None => {
                    proof { lemma_mapping_stays_none(iv, i as int + 1); }
                    return Err(HarvestError::Malformed);
                },
            }
        }
        i = i + 1;
    }
    assert(iv.take(items@.len() as int) =~= iv);
    Ok(out)
}

proof fn lemma_mapping_stays_none(es: Seq<(Seq<char>, JsonView)>, i: int)
    requires
        0 <= i <= es.len(),
        mapping_of(es.take(i)) is None,
    ensures
        mapping_of(es) is None,
    decreases es.len() - i,
{
    if i < es.len() {
        assert(es.take(i + 1).drop_last() =~= es.take(i));
        lemma_mapping_stays_none(es, i + 1);
    } else {
        assert(es.take(i) =~= es);
    }
}

} // verus!
