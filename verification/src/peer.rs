//! Wi-Fi Direct peers and what `wpa_cli` tells about them.
use crate::device::{self, can_decode_hex, is_mac_address, parse_wfd_rtsp_port};
use crate::dialogue;
use crate::exchange;
use crate::fields::{self, FieldMap};
use crate::number::{self, parse_u16};
use crate::order::{self, relate, Relation};
use crate::text::{self, chars_of, split_lines, split_once, starts_with, string_of, trim};
use vstd::prelude::*;

verus! {

/// A peer that was discovered.
#[derive(Clone, Debug, PartialEq, Eq)]
pub struct MiracastPeer {
    pub address: String,
    pub name: Option<String>,
    pub is_miracast: bool,
    pub rtsp_port: Option<u16>,
    pub config_methods: Option<String>,
    pub device_type: Option<String>,
    pub manufacturer: Option<String>,
    pub model_name: Option<String>,
    pub fields: FieldMap,
}

/// What is known of a peer.
pub struct PeerModel {
    pub address: Seq<char>,
    pub name: Option<Seq<char>>,
    pub is_miracast: bool,
    pub rtsp_port: Option<u16>,
    pub config_methods: Option<Seq<char>>,
    pub device_type: Option<Seq<char>>,
    pub manufacturer: Option<Seq<char>>,
    pub model_name: Option<Seq<char>>,
    pub fields: Map<Seq<char>, Seq<char>>,
}

impl View for MiracastPeer {
    type V = PeerModel;

    open spec fn view(&self) -> PeerModel {
        PeerModel {
            address: self.address@,
            name: text::opt_text(self.name),
            is_miracast: self.is_miracast,
            rtsp_port: self.rtsp_port,
            config_methods: text::opt_text(self.config_methods),
            device_type: text::opt_text(self.device_type),
            manufacturer: text::opt_text(self.manufacturer),
            model_name: text::opt_text(self.model_name),
            fields: self.fields@,
        }
    }
}

/// What is known of the peers of a list.
pub open spec fn peers(list: Seq<MiracastPeer>) -> Seq<PeerModel> {
    list.map_values(|p: MiracastPeer| p@)
}

/// The test for a MAC address.
pub open spec fn mac_test() -> spec_fn(Seq<char>) -> bool {
    |line: Seq<char>| device::is_mac(line)
}

/// The addresses in a listing of peers: the lines that are MAC addresses.
pub open spec fn peer_addresses(output: Seq<char>) -> Seq<Seq<char>> {
    text::trimmed_lines(output).filter(mac_test())
}

/// Reads the addresses out of a listing of peers.
pub fn parse_peer_addresses(output: &str) -> (r: Vec<String>)
    ensures
        text::texts(r@) == peer_addresses(output@),
{
    broadcast use text::lemma_texts_empty;

    let list: Vec<String> = split_lines(output);
    let ghost all = text::texts(list@);
    let mut r: Vec<String> = Vec::new();
    let mut i: usize = 0;
    proof {
        reveal(Seq::filter);
        assert(text::texts(r@) =~= all.take(0).filter(mac_test()));
    }
    while i < list.len()
        invariant
            i <= list@.len(),
            all == text::texts(list@),
            text::texts(r@) == all.take(i as int).filter(mac_test()),
        decreases list@.len() - i,
    {
        broadcast use text::lemma_texts_push;

        proof {
            text::lemma_filter_take(all, i as int, mac_test());
            assert(all[i as int] == list@[i as int]@);
        }
        if is_mac_address(list[i].as_str()) {
            r.push(list[i].clone());
        }
        i = i + 1;
    }
    assert(all.take(i as int) == all);
    r
}

/// The fields among lines: a name, an equals sign and a value, without white
/// space around either. A later field replaces an earlier one of its name.
pub open spec fn fields_among(list: Seq<Seq<char>>) -> Map<Seq<char>, Seq<char>>
    decreases list.len(),
{
    if list.len() == 0 {
        Map::empty()
    } else {
        let before = fields_among(list.drop_last());
        match text::split_at_first(list.last(), '=') {
            Some((key, value)) => before.insert(text::trimmed(key), text::trimmed(value)),
            None => before,
        }
    }
}

/// The fields in the details of a peer.
pub open spec fn detail_fields(output: Seq<char>) -> Map<Seq<char>, Seq<char>> {
    fields_among(text::trimmed_lines(output))
}

/// The value of the first of the names that has one.
pub open spec fn first_of(m: Map<Seq<char>, Seq<char>>, names: Seq<Seq<char>>) -> Option<Seq<char>>
    decreases names.len(),
{
    if names.len() == 0 {
        None
    } else if m.contains_key(names[0]) {
        Some(m[names[0]])
    } else {
        first_of(m, names.drop_first())
    }
}

/// The texts of string slices.
pub open spec fn slices(list: Seq<&str>) -> Seq<Seq<char>> {
    list.map_values(|s: &str| s@)
}

/// Finds the value of the first of the names that has one.
pub fn first_field<'a>(fields: &'a FieldMap, keys: &[&str]) -> (r: Option<&'a str>)
    ensures
        match r {
            Some(v) => first_of(fields@, slices(keys@)) == Some(v@),
            None => first_of(fields@, slices(keys@)) is None,
        },
{
    let ghost all = slices(keys@);
    let mut i: usize = 0;
    assert(all.skip(0) == all);
    while i < keys.len()
        invariant
            i <= keys@.len(),
            all == slices(keys@),
            first_of(fields@, all) == first_of(fields@, all.skip(i as int)),
        decreases keys@.len() - i,
    {
        assert(all.skip(i as int)[0] == keys@[i as int]@);
        assert(all.skip(i as int).drop_first() == all.skip(i + 1));
        match fields.get(keys[i]) {
            Some(v) => {
                return Some(v.as_str());
            },
            None => {},
        }
        i = i + 1;
    }
    None
}

/// The port that a field gives in decimal.
pub open spec fn stated_port(m: Map<Seq<char>, Seq<char>>) -> Option<u16> {
    match first_of(m, seq!["wfd_rtsp_ctrlport"@, "wfd_rtsp_port"@]) {
        Some(value) => match number::number(value, u16::MAX as nat) {
            Some(port) => Some(port as u16),
            None => None,
        },
        None => None,
    }
}

/// The RTSP port of a peer: the one stated, or else the one in its WFD
/// subelements.
pub open spec fn peer_port(m: Map<Seq<char>, Seq<char>>) -> Option<u16> {
    match stated_port(m) {
        Some(port) => Some(port),
        None => match fields::lookup(m, "wfd_subelems"@) {
            Some(hex) => device::hex_port(hex),
            None => None,
        },
    }
}

/// Whether some field belongs to Wi-Fi Display.
pub open spec fn has_wfd_field(m: Map<Seq<char>, Seq<char>>) -> bool {
    exists|key: Seq<char>| #[trigger] m.contains_key(key) && text::begins_with(key, "wfd_"@)
}

/// What the details tell about the peer at `address`.
pub open spec fn peer_of(address: Seq<char>, output: Seq<char>) -> PeerModel {
    let m = detail_fields(output);
    PeerModel {
        address,
        name: first_of(m, seq!["device_name"@, "name"@]),
        is_miracast: has_wfd_field(m),
        rtsp_port: peer_port(m),
        config_methods: fields::lookup(m, "config_methods"@),
        device_type: first_of(m, seq!["pri_dev_type"@, "device_type"@]),
        manufacturer: fields::lookup(m, "manufacturer"@),
        model_name: fields::lookup(m, "model_name"@),
        fields: m,
    }
}

/// Whether the details can be read: unless a port is stated, the WFD
/// subelements must be in a form that can be decoded.
pub open spec fn details_readable(output: Seq<char>) -> bool {
    let m = detail_fields(output);
    stated_port(m) is None ==> (fields::lookup(m, "wfd_subelems"@) matches Some(hex)
        ==> device::hex_is_cuttable(hex))
}

/// Reads the fields in the details of a peer.
fn read_fields(output: &str) -> (m: FieldMap)
    ensures
        m@ == detail_fields(output@),
{
    let list: Vec<String> = split_lines(output);
    let ghost all = text::texts(list@);
    let mut m: FieldMap = FieldMap::new();
    let mut i: usize = 0;
    while i < list.len()
        invariant
            i <= list@.len(),
            all == text::texts(list@),
            m@ == fields_among(all.take(i as int)),
        decreases list@.len() - i,
    {
        proof {
            assert(all.take(i + 1).drop_last() == all.take(i as int));
            assert(all.take(i + 1).last() == list@[i as int]@);
        }
        let line: Vec<char> = chars_of(list[i].as_str());
        if let Some((key, value)) = split_once(line.as_slice(), '=') {
            m.insert(string_of(trim(key)), string_of(trim(value)));
        }
        i = i + 1;
    }
    assert(all.take(i as int) == all);
    m
}

/// The port that a field gives in decimal.
fn read_stated_port(m: &FieldMap) -> (r: Option<u16>)
    ensures
        r == stated_port(m@),
{
    let keys: [&str; 2] = ["wfd_rtsp_ctrlport", "wfd_rtsp_port"];
    let found: Option<&str> = first_field(m, keys.as_slice());
    assert(slices(keys@) =~= seq!["wfd_rtsp_ctrlport"@, "wfd_rtsp_port"@]);
    match found {
        Some(value) => {
            let chars: Vec<char> = chars_of(value);
            parse_u16(chars.as_slice())
        },
        None => None,
    }
}

/// Whether [`parse_peer_details`] can read the details.
pub fn can_read_details(output: &str) -> (r: bool)
    ensures
        r == details_readable(output@),
{
    let m: FieldMap = read_fields(output);
    if read_stated_port(&m).is_some() {
        return true;
    }
    match m.get("wfd_subelems") {
        Some(hex) => can_decode_hex(hex.as_str()),
        None => true,
    }
}

/// Copies an optional string slice.
fn owned(o: Option<&str>) -> (r: Option<String>)
    ensures
        match o {
            Some(s) => text::opt_text(r) == Some(s@),
            None => r is None,
        },
{
    match o {
        Some(s) => Some(s.to_owned()),
        None => None,
    }
}

/// Copies a value.
fn copied(m: &FieldMap, key: &str) -> (r: Option<String>)
    ensures
        text::opt_text(r) == fields::lookup(m@, key@),
{
    match m.get(key) {
        Some(s) => Some(s.clone()),
        None => None,
    }
}

/// Whether some field belongs to Wi-Fi Display.
fn any_wfd_field(m: &FieldMap) -> (r: bool)
    ensures
        r == has_wfd_field(m@),
{
    let keys: Vec<String> = m.keys();
    let ghost all = text::texts(keys@);
    let mut i: usize = 0;
    while i < keys.len()
        invariant
            i <= keys@.len(),
            all == text::texts(keys@),
            fields::lists_names(m@, all),
            forall|k: int| 0 <= k < i ==> !text::begins_with(#[trigger] all[k], "wfd_"@),
        decreases keys@.len() - i,
    {
        let key: Vec<char> = chars_of(keys[i].as_str());
        assert(all[i as int] == key@);
        if starts_with(key.as_slice(), "wfd_") {
            assert(all.contains(key@));
            assert(m@.contains_key(key@));
            return true;
        }
        i = i + 1;
    }
    proof {
        if has_wfd_field(m@) {
            let key = choose|key: Seq<char>| #[trigger]
                m@.contains_key(key) && text::begins_with(key, "wfd_"@);
            assert(all.contains(key));
            let k = choose|k: int| 0 <= k < all.len() && all[k] == key;
            assert(!text::begins_with(all[k], "wfd_"@));
        }
    }
    false
}

/// Reads the details of the peer at `address`.
pub fn parse_peer_details(address: &str, output: &str) -> (peer: MiracastPeer)
    requires
        details_readable(output@),
    ensures
        peer@ == peer_of(address@, output@),
{
    let m: FieldMap = read_fields(output);
    let name_keys: [&str; 2] = ["device_name", "name"];
    let name: Option<String> = owned(first_field(&m, name_keys.as_slice()));
    assert(slices(name_keys@) =~= seq!["device_name"@, "name"@]);
    let rtsp_port: Option<u16> = match read_stated_port(&m) {
        Some(port) => Some(port),
        None => match m.get("wfd_subelems") {
            Some(hex) => parse_wfd_rtsp_port(hex.as_str()),
            None => None,
        },
    };
    let type_keys: [&str; 2] = ["pri_dev_type", "device_type"];
    let device_type: Option<String> = owned(first_field(&m, type_keys.as_slice()));
    assert(slices(type_keys@) =~= seq!["pri_dev_type"@, "device_type"@]);
    MiracastPeer {
        address: address.to_owned(),
        name,
        is_miracast: any_wfd_field(&m),
        rtsp_port,
        config_methods: copied(&m, "config_methods"),
        device_type,
        manufacturer: copied(&m, "manufacturer"),
        model_name: copied(&m, "model_name"),
        fields: m,
    }
}

/// The name by which a peer is listed.
pub open spec fn listed_name(p: PeerModel) -> Seq<char> {
    match p.name {
        Some(name) => name,
        None => Seq::empty(),
    }
}

/// Whether `a` is to be listed before `b`: by name, then by address.
pub open spec fn listed_before(a: PeerModel, b: PeerModel) -> bool {
    ||| order::precedes(listed_name(a), listed_name(b))
    ||| listed_name(a) == listed_name(b) && order::precedes(a.address, b.address)
}

/// Whether no peer stands before one that is to be listed before it.
pub open spec fn in_listing_order(list: Seq<PeerModel>) -> bool {
    forall|i: int, j: int|
        0 <= i < j < list.len() ==> !listed_before(#[trigger] list[j], #[trigger] list[i])
}

/// The test for a name and an address.
pub open spec fn listed_as(name: Seq<char>, address: Seq<char>) -> spec_fn(PeerModel) -> bool {
    |p: PeerModel| listed_name(p) == name && p.address == address
}

/// Whether `sorted` holds the peers of `list` in the order of the listing, and
/// those of the same name and address in the order they had.
pub open spec fn is_listing_of(sorted: Seq<PeerModel>, list: Seq<PeerModel>) -> bool {
    &&& in_listing_order(sorted)
    &&& forall|name: Seq<char>, address: Seq<char>|
        sorted.filter(#[trigger] listed_as(name, address)) == list.filter(listed_as(name, address))
}

/// `p` put into an ordered list, behind those that are not to be listed after
/// it.
pub open spec fn placed(list: Seq<PeerModel>, p: PeerModel) -> Seq<PeerModel>
    decreases list.len(),
{
    if list.len() > 0 && listed_before(p, list.last()) {
        placed(list.drop_last(), p).push(list.last())
    } else {
        list.push(p)
    }
}

/// The peers in the order of the listing.
pub open spec fn listing(list: Seq<PeerModel>) -> Seq<PeerModel>
    decreases list.len(),
{
    if list.len() == 0 {
        list
    } else {
        placed(listing(list.drop_last()), list.last())
    }
}

/// What is before one peer is before all that are not before that one.
proof fn lemma_listed_before(a: PeerModel, b: PeerModel, c: PeerModel)
    requires
        listed_before(a, b),
        !listed_before(c, b),
    ensures
        listed_before(a, c),
{
    let (x, y, z) = (listed_name(a), listed_name(b), listed_name(c));
    order::lemma_total(y, z);
    order::lemma_total(b.address, c.address);
    if order::precedes(x, y) && order::precedes(y, z) {
        order::lemma_transitive(x, y, z);
    }
    if order::precedes(a.address, b.address) && order::precedes(b.address, c.address) {
        order::lemma_transitive(a.address, b.address, c.address);
    }
}

/// No peer is to be listed before itself.
proof fn lemma_not_before_itself(a: PeerModel)
    ensures
        !listed_before(a, a),
{
    order::lemma_irreflexive(listed_name(a));
    order::lemma_irreflexive(a.address);
}

/// Of two peers not both are to be listed before the other.
proof fn lemma_asymmetric(a: PeerModel, b: PeerModel)
    requires
        listed_before(a, b),
    ensures
        !listed_before(b, a),
{
    let (x, y) = (listed_name(a), listed_name(b));
    order::lemma_irreflexive(x);
    order::lemma_irreflexive(a.address);
    if order::precedes(x, y) && order::precedes(y, x) {
        order::lemma_transitive(x, y, x);
    }
    if order::precedes(a.address, b.address) && order::precedes(b.address, a.address) {
        order::lemma_transitive(a.address, b.address, a.address);
    }
}

/// A placed list holds the list and the new peer.
proof fn lemma_placed_items(list: Seq<PeerModel>, p: PeerModel, i: int)
    requires
        0 <= i < placed(list, p).len(),
    ensures
        placed(list, p)[i] == p || list.contains(placed(list, p)[i]),
    decreases list.len(),
{
    if list.len() > 0 && listed_before(p, list.last()) {
        let head = placed(list.drop_last(), p);
        if i < head.len() {
            lemma_placed_items(list.drop_last(), p, i);
            if list.drop_last().contains(head[i]) {
                let k = choose|k: int| 0 <= k < list.drop_last().len() && list.drop_last()[k] == head[i];
                assert(list[k] == head[i]);
            }
        } else {
            assert(placed(list, p)[i] == list[list.len() - 1]);
        }
    } else if i < list.len() {
        assert(list[i] == placed(list, p)[i]);
    }
}

/// Placing a peer keeps the order.
proof fn lemma_placed_in_order(list: Seq<PeerModel>, p: PeerModel)
    requires
        in_listing_order(list),
    ensures
        in_listing_order(placed(list, p)),
    decreases list.len(),
{
    let out = placed(list, p);
    if list.len() > 0 && listed_before(p, list.last()) {
        let head = placed(list.drop_last(), p);
        assert(in_listing_order(list.drop_last()));
        lemma_placed_in_order(list.drop_last(), p);
        assert forall|i: int, j: int| 0 <= i < j < out.len() implies !listed_before(
            #[trigger] out[j],
            #[trigger] out[i],
        ) by {
            if j < head.len() {
                assert(!listed_before(head[j], head[i]));
            } else {
                lemma_placed_items(list.drop_last(), p, i);
                if head[i] == p {
                    lemma_asymmetric(p, list.last());
                } else {
                    let k = choose|k: int|
                        0 <= k < list.drop_last().len() && list.drop_last()[k] == head[i];
                    assert(list[k] == head[i]);
                    assert(!listed_before(list[list.len() - 1], list[k]));
                }
            }
        }
    } else {
        assert forall|i: int, j: int| 0 <= i < j < out.len() implies !listed_before(
            #[trigger] out[j],
            #[trigger] out[i],
        ) by {
            if j < list.len() {
                assert(!listed_before(list[j], list[i]));
            } else if listed_before(p, list[i]) {
                if i < list.len() - 1 {
                    assert(!listed_before(list[list.len() - 1], list[i]));
                }
                lemma_not_before_itself(list[i]);
                lemma_listed_before(p, list[i], list.last());
            }
        }
    }
}

/// Placing a peer puts it behind those of its name and address.
proof fn lemma_placed_filter(
    list: Seq<PeerModel>,
    p: PeerModel,
    name: Seq<char>,
    address: Seq<char>,
)
    ensures
        placed(list, p).filter(listed_as(name, address)) == list.push(p).filter(
            listed_as(name, address),
        ),
    decreases list.len(),
{
    let keep = listed_as(name, address);
    if list.len() > 0 && listed_before(p, list.last()) {
        let front = list.drop_last();
        let head = placed(front, p);
        lemma_placed_filter(front, p, name, address);
        text::lemma_filter_push(head, list.last(), keep);
        text::lemma_filter_push(front, p, keep);
        text::lemma_filter_push(list, p, keep);
        text::lemma_filter_push(front, list.last(), keep);
        assert(front.push(list.last()) == list);
        assert(!(keep(p) && keep(list.last()))) by {
            order::lemma_irreflexive(name);
            order::lemma_irreflexive(address);
        }
    }
}

/// [`listing`] orders the peers and keeps those of the same name and address
/// in the order they had.
pub proof fn law_listing(list: Seq<PeerModel>)
    ensures
        is_listing_of(listing(list), list),
    decreases list.len(),
{
    if list.len() > 0 {
        let front = list.drop_last();
        law_listing(front);
        lemma_placed_in_order(listing(front), list.last());
        assert forall|name: Seq<char>, address: Seq<char>|
            listing(list).filter(#[trigger] listed_as(name, address)) == list.filter(
                listed_as(name, address),
            ) by {
            let keep = listed_as(name, address);
            lemma_placed_filter(listing(front), list.last(), name, address);
            assert(listing(front).filter(keep) == front.filter(keep));
            text::lemma_filter_push(listing(front), list.last(), keep);
            text::lemma_filter_push(front, list.last(), keep);
            assert(front.push(list.last()) == list);
        }
    }
}

/// A listing holds nothing but the peers that were to be listed.
pub proof fn lemma_listing_items(list: Seq<PeerModel>, i: int)
    requires
        0 <= i < listing(list).len(),
    ensures
        list.contains(listing(list)[i]),
    decreases list.len(),
{
    if list.len() > 0 {
        let front = list.drop_last();
        lemma_placed_items(listing(front), list.last(), i);
        let p = listing(list)[i];
        if p == list.last() {
            assert(list[list.len() - 1] == p);
        } else {
            let k = choose|k: int| 0 <= k < listing(front).len() && listing(front)[k] == p;
            lemma_listing_items(front, k);
            let m = choose|m: int| 0 <= m < front.len() && front[m] == p;
            assert(list[m] == p);
        }
    }
}

/// Whether `a` is to be listed before `b`.
fn goes_before(a: &MiracastPeer, b: &MiracastPeer) -> (r: bool)
    ensures
        r == listed_before(a@, b@),
{
    let x: &str = match &a.name {
        Some(name) => name.as_str(),
        None => "",
    };
    let y: &str = match &b.name {
        Some(name) => name.as_str(),
        None => "",
    };
    proof {
        reveal_strlit("");
        assert(x@ =~= listed_name(a@));
        assert(y@ =~= listed_name(b@));
        order::lemma_relation(x@, y@);
    }
    match relate(x, y) {
        Relation::Before => true,
        Relation::Same => relate(a.address.as_str(), b.address.as_str()) == Relation::Before,
        Relation::After => false,
    }
}

/// Puts peers in the order of the listing.
pub fn sort_peers(list: Vec<MiracastPeer>) -> (r: Vec<MiracastPeer>)
    ensures
        peers(r@) == listing(peers(list@)),
        is_listing_of(peers(r@), peers(list@)),
{
    let ghost all = peers(list@);
    let total: usize = list.len();
    let mut rest: Vec<MiracastPeer> = list;
    let mut r: Vec<MiracastPeer> = Vec::new();
    let mut n: usize = 0;
    assert(peers(r@) =~= listing(all.take(0)));
    while n < total
        invariant
            n <= total,
            total == all.len(),
            peers(rest@) == all.skip(n as int),
            peers(r@) == listing(all.take(n as int)),
        decreases total - n,
    {
        let ghost before = rest@;
        assert(peers(before).len() == rest@.len());
        let p: MiracastPeer = rest.remove(0);
        proof {
            assert(peers(before)[0] == p@);
            assert(all[n as int] == p@);
            assert forall|j: int| 0 <= j < rest@.len() implies peers(rest@)[j] == all[n + 1 + j] by {
                assert(peers(before)[j + 1] == rest@[j]@);
            }
            assert(peers(rest@) =~= all.skip(n + 1));
            assert(all.take(n + 1).drop_last() == all.take(n as int));
        }
        let ghost sorted = peers(r@);
        let mut k: usize = r.len();
        assert(placed(sorted, p@) =~= placed(sorted.take(k as int), p@) + sorted.skip(k as int)) by {
            assert(sorted.take(k as int) == sorted);
        }
        while k > 0 && goes_before(&p, &r[k - 1])
            invariant
                k <= r@.len(),
                sorted == peers(r@),
                placed(sorted, p@) == placed(sorted.take(k as int), p@) + sorted.skip(k as int),
            decreases k,
        {
            proof {
                let head = sorted.take(k as int);
                assert(head.last() == r@[k - 1]@);
                assert(head.drop_last() == sorted.take(k - 1));
                assert(placed(head, p@) == placed(sorted.take(k - 1), p@).push(r@[k - 1]@));
                assert(placed(sorted, p@) =~= placed(sorted.take(k - 1), p@) + sorted.skip(k - 1));
            }
            k = k - 1;
        }
        proof {
            let head = sorted.take(k as int);
            if k > 0 {
                assert(head.last() == r@[k - 1]@);
            }
            assert(placed(head, p@) == head.push(p@));
        }
        let ghost whole = r@;
        r.insert(k, p);
        assert(peers(r@) =~= placed(sorted, p@)) by {
            assert(peers(r@) =~= sorted.take(k as int).push(p@) + sorted.skip(k as int));
        }
        n = n + 1;
    }
    proof {
        assert(all.take(n as int) == all);
        law_listing(all);
    }
    r
}

/// A listing of peers is read line by line: a line adds the address in it, if
/// it holds nothing else.
pub proof fn law_addresses_are_read_by_line(before: Seq<char>, line: Seq<char>, after: Seq<char>)
    requires
        before.len() > 0 ==> before.last() == '\n',
        forall|i: int| 0 <= i < line.len() ==> #[trigger] line[i] != '\n',
    ensures
        peer_addresses(before + line.push('\n') + after) == peer_addresses(before) + (
        if device::is_mac(text::trimmed(line)) {
            seq![text::trimmed(line)]
        } else {
            Seq::empty()
        }) + peer_addresses(after),
        peer_addresses(Seq::empty()).len() == 0,
{
    let name = text::trimmed(line);
    let mid = line.push('\n');
    text::lemma_trimmed_lines_concat(before, mid + after);
    text::lemma_trimmed_lines_concat(mid, after);
    text::lemma_trimmed_lines_single(line);
    assert(before + mid + after =~= before + (mid + after));
    let keep = mac_test();
    Seq::filter_distributes_over_add(
        text::trimmed_lines(before),
        seq![name] + text::trimmed_lines(after),
        keep,
    );
    text::lemma_filter_first(name, text::trimmed_lines(after), keep);
    assert(peer_addresses(before + mid + after) =~= peer_addresses(before) + (if keep(name) {
        seq![name]
    } else {
        Seq::empty()
    }) + peer_addresses(after));
    assert(text::trimmed_lines(Seq::<char>::empty()) =~= Seq::<Seq<char>>::empty());
    assert(peer_addresses(Seq::empty()) =~= Seq::<Seq<char>>::empty()) by {
        reveal(Seq::filter);
    }
}

/// Whether a line gives a value to a key: what stands before its first equals
/// sign and what stands behind it, without white space around either.
pub open spec fn states(line: Seq<char>, key: Seq<char>, value: Seq<char>) -> bool {
    exists|a: Seq<char>, b: Seq<char>|
        {
            &&& line == #[trigger] (a.push('=') + b)
            &&& forall|i: int| 0 <= i < a.len() ==> #[trigger] a[i] != '='
            &&& text::trimmed(a) == key
            &&& text::trimmed(b) == value
        }
}

/// Whether a line gives some value to a key.
pub open spec fn mentions(line: Seq<char>, key: Seq<char>) -> bool {
    exists|value: Seq<char>| states(line, key, value)
}

/// Whether the last line that gives a value to a key gives it this one.
pub open spec fn last_stated(lines: Seq<Seq<char>>, key: Seq<char>, value: Seq<char>) -> bool {
    exists|k: int|
        {
            &&& 0 <= k < lines.len()
            &&& states(#[trigger] lines[k], key, value)
            &&& forall|j: int| k < j < lines.len() ==> !mentions(#[trigger] lines[j], key)
        }
}

/// Whether no line gives a value to a key.
pub open spec fn unstated(lines: Seq<Seq<char>>, key: Seq<char>) -> bool {
    forall|j: int| 0 <= j < lines.len() ==> !mentions(#[trigger] lines[j], key)
}

/// A line gives a value to at most one key.
proof fn lemma_states(line: Seq<char>)
    ensures
        match text::split_at_first(line, '=') {
            Some((a, b)) => {
                &&& states(line, text::trimmed(a), text::trimmed(b))
                &&& forall|key: Seq<char>, value: Seq<char>| #[trigger]
                    states(line, key, value) ==> key == text::trimmed(a) && value
                        == text::trimmed(b)
            },
            None => forall|key: Seq<char>, value: Seq<char>| !#[trigger] states(line, key, value),
        },
{
    assert forall|key: Seq<char>, value: Seq<char>| #[trigger] states(line, key, value) implies (
    text::split_at_first(line, '=') matches Some((a, b)) && key == text::trimmed(a) && value
        == text::trimmed(b)) by {
        let (a, b) = choose|a: Seq<char>, b: Seq<char>|
            {
                &&& line == #[trigger] (a.push('=') + b)
                &&& forall|i: int| 0 <= i < a.len() ==> #[trigger] a[i] != '='
                &&& text::trimmed(a) == key
                &&& text::trimmed(b) == value
            };
        text::law_split_at_first(a, '=', b);
    }
    if let Some((a, b)) = text::split_at_first(line, '=') {
        text::lemma_position(line, '=');
        let n = text::position(line, '=') as int;
        assert(line =~= a.push('=') + b);
        assert forall|i: int| 0 <= i < a.len() implies #[trigger] a[i] != '=' by {
            assert(a[i] == line[i]);
        }
    }
}

/// The fields among lines are those that the lines state.
proof fn lemma_fields_stated(lines: Seq<Seq<char>>, key: Seq<char>)
    ensures
        match fields::lookup(fields_among(lines), key) {
            Some(value) => last_stated(lines, key, value) && !unstated(lines, key),
            None => unstated(lines, key),
        },
        forall|value: Seq<char>| #[trigger]
            last_stated(lines, key, value) ==> fields::lookup(fields_among(lines), key) == Some(
                value,
            ),
    decreases lines.len(),
{
    if lines.len() > 0 {
        let front = lines.drop_last();
        let line = lines.last();
        let n = front.len() as int;
        lemma_fields_stated(front, key);
        lemma_states(line);
        assert(lines[n] == line);
        assert forall|j: int| 0 <= j < n implies lines[j] == #[trigger] front[j] by {}
        let here = text::split_at_first(line, '=') matches Some((a, _)) && text::trimmed(a) == key;
        if here {
            let value = fields_among(lines)[key];
            assert(states(lines[n], key, value));
            assert(last_stated(lines, key, value));
            assert(mentions(lines[n], key));
            assert forall|v: Seq<char>| #[trigger] last_stated(lines, key, v) implies v == value by {
                let k = choose|k: int|
                    {
                        &&& 0 <= k < lines.len()
                        &&& states(#[trigger] lines[k], key, v)
                        &&& forall|j: int|
                            k < j < lines.len() ==> !mentions(#[trigger] lines[j], key)
                    };
                if k < n {
                    assert(!mentions(lines[n], key));
                }
            }
        } else {
            assert(!mentions(line, key));
            assert(fields::lookup(fields_among(lines), key) == fields::lookup(
                fields_among(front),
                key,
            ));
            assert forall|v: Seq<char>| #[trigger] last_stated(front, key, v) implies last_stated(
                lines,
                key,
                v,
            ) by {
                let k = choose|k: int|
                    {
                        &&& 0 <= k < front.len()
                        &&& states(#[trigger] front[k], key, v)
                        &&& forall|j: int|
                            k < j < front.len() ==> !mentions(#[trigger] front[j], key)
                    };
                assert(states(lines[k], key, v));
                assert forall|j: int| k < j < lines.len() implies !mentions(
                    #[trigger] lines[j],
                    key,
                ) by {
                    if j < n {
                        assert(!mentions(front[j], key));
                    }
                }
            }
            assert forall|v: Seq<char>| #[trigger] last_stated(lines, key, v) implies last_stated(
                front,
                key,
                v,
            ) by {
                let k = choose|k: int|
                    {
                        &&& 0 <= k < lines.len()
                        &&& states(#[trigger] lines[k], key, v)
                        &&& forall|j: int|
                            k < j < lines.len() ==> !mentions(#[trigger] lines[j], key)
                    };
                assert(mentions(lines[k], key));
                assert(k < n);
                assert(states(front[k], key, v));
                assert forall|j: int| k < j < front.len() implies !mentions(
                    #[trigger] front[j],
                    key,
                ) by {
                    assert(!mentions(lines[j], key));
                }
            }
            if unstated(front, key) {
                assert forall|j: int| 0 <= j < lines.len() implies !mentions(
                    #[trigger] lines[j],
                    key,
                ) by {
                    if j < n {
                        assert(!mentions(front[j], key));
                    }
                }
            }
            if unstated(lines, key) {
                assert forall|j: int| 0 <= j < front.len() implies !mentions(
                    #[trigger] front[j],
                    key,
                ) by {
                    assert(!mentions(lines[j], key));
                }
            }
        }
    }
}

/// Whether a property of a peer is what the lines state: the value of the first
/// key, or of the second one if the first one is not stated.
pub open spec fn is_stated_by(
    property: Option<Seq<char>>,
    lines: Seq<Seq<char>>,
    first: Seq<char>,
    second: Seq<char>,
) -> bool {
    match property {
        Some(v) => last_stated(lines, first, v) || unstated(lines, first) && last_stated(
            lines,
            second,
            v,
        ),
        None => unstated(lines, first) && unstated(lines, second),
    }
}

/// What is told of a peer is what the last line with the key for it states: its
/// name, the methods to configure it, its type, who made it and its model. For
/// its name and its type there is a second key, which counts only without the
/// first one.
pub proof fn law_peer_is_as_stated(address: Seq<char>, output: Seq<char>)
    ensures
        ({
            let lines = text::trimmed_lines(output);
            let p = peer_of(address, output);
            &&& p.address == address
            &&& is_stated_by(p.name, lines, "device_name"@, "name"@)
            &&& is_stated_by(p.device_type, lines, "pri_dev_type"@, "device_type"@)
            &&& is_stated_by(p.config_methods, lines, "config_methods"@, "config_methods"@)
            &&& is_stated_by(p.manufacturer, lines, "manufacturer"@, "manufacturer"@)
            &&& is_stated_by(p.model_name, lines, "model_name"@, "model_name"@)
            &&& forall|key: Seq<char>, value: Seq<char>|
                #![trigger last_stated(lines, key, value)]
                last_stated(lines, key, value) ==> p.fields.contains_key(key) && p.fields[key]
                    == value
            &&& forall|key: Seq<char>| #[trigger]
                p.fields.contains_key(key) ==> !unstated(lines, key)
        }),
{
    let lines = text::trimmed_lines(output);
    let m = detail_fields(output);
    assert forall|key: Seq<char>, value: Seq<char>|
        #![trigger last_stated(lines, key, value)]
        last_stated(lines, key, value) implies m.contains_key(key) && m[key] == value by {
        lemma_fields_stated(lines, key);
    }
    assert forall|key: Seq<char>| #[trigger] m.contains_key(key) implies !unstated(lines, key) by {
        lemma_fields_stated(lines, key);
    }
    lemma_fields_stated(lines, "device_name"@);
    lemma_fields_stated(lines, "name"@);
    lemma_fields_stated(lines, "pri_dev_type"@);
    lemma_fields_stated(lines, "device_type"@);
    lemma_fields_stated(lines, "config_methods"@);
    lemma_fields_stated(lines, "manufacturer"@);
    lemma_fields_stated(lines, "model_name"@);
    lemma_first_of_two(m, "device_name"@, "name"@);
    lemma_first_of_two(m, "pri_dev_type"@, "device_type"@);
}

/// The first of two names.
proof fn lemma_first_of_two(m: Map<Seq<char>, Seq<char>>, a: Seq<char>, b: Seq<char>)
    ensures
        first_of(m, seq![a, b]) == (match fields::lookup(m, a) {
            Some(v) => Some(v),
            None => fields::lookup(m, b),
        }),
{
    assert(seq![a, b].drop_first() =~= seq![b]);
    assert(seq![b].drop_first() =~= Seq::<Seq<char>>::empty());
    reveal_with_fuel(first_of, 3);
}

/// The port of a peer is the one that a line states in decimal. Without such a
/// line, or if it is no port, it is the one in the subelements.
pub proof fn law_peer_port(
    address: Seq<char>,
    output: Seq<char>,
    stated: Seq<char>,
    hex: Seq<char>,
)
    ensures
        ({
            let lines = text::trimmed_lines(output);
            let port = peer_of(address, output).rtsp_port;
            let given = last_stated(lines, "wfd_rtsp_ctrlport"@, stated) || unstated(
                lines,
                "wfd_rtsp_ctrlport"@,
            ) && last_stated(lines, "wfd_rtsp_port"@, stated);
            let none_given = unstated(lines, "wfd_rtsp_ctrlport"@) && unstated(
                lines,
                "wfd_rtsp_port"@,
            ) || given && number::number(stated, u16::MAX as nat) is None;
            &&& given && number::number(stated, u16::MAX as nat) is Some ==> port is Some && Some(
                port->Some_0 as nat,
            ) == number::number(stated, u16::MAX as nat)
            &&& none_given && last_stated(lines, "wfd_subelems"@, hex) ==> port == device::hex_port(
                hex,
            )
            &&& none_given && unstated(lines, "wfd_subelems"@) ==> port is None
        }),
{
    let lines = text::trimmed_lines(output);
    let m = detail_fields(output);
    lemma_fields_stated(lines, "wfd_rtsp_ctrlport"@);
    lemma_fields_stated(lines, "wfd_rtsp_port"@);
    lemma_fields_stated(lines, "wfd_subelems"@);
    lemma_first_of_two(m, "wfd_rtsp_ctrlport"@, "wfd_rtsp_port"@);
}

/// A peer is a Wi-Fi Display peer exactly if some line has a key that starts
/// with `wfd_`.
pub proof fn law_miracast_peers(address: Seq<char>, output: Seq<char>)
    ensures
        peer_of(address, output).is_miracast <==> exists|rest: Seq<char>|
            !unstated(text::trimmed_lines(output), #[trigger] ("wfd_"@ + rest)),
{
    let lines = text::trimmed_lines(output);
    let m = detail_fields(output);
    let p = "wfd_"@;
    if has_wfd_field(m) {
        let key = choose|key: Seq<char>| #[trigger] m.contains_key(key) && text::begins_with(
            key,
            p,
        );
        let rest = key.skip(p.len() as int);
        assert(key =~= p + rest);
        lemma_fields_stated(lines, key);
        assert(!unstated(lines, p + rest));
    }
    if exists|rest: Seq<char>| !unstated(lines, #[trigger] (p + rest)) {
        let rest = choose|rest: Seq<char>| !unstated(lines, #[trigger] (p + rest));
        lemma_fields_stated(lines, p + rest);
        text::law_begins_with(p, rest, p);
        assert(m.contains_key(p + rest));
    }
}

/// Peers are listed by their names, character by character, and those of the
/// same name by their addresses. A peer without a name has the empty one.
pub proof fn law_listing_order(
    list: Seq<PeerModel>,
    i: int,
    j: int,
    first: Seq<char>,
    second: Seq<char>,
)
    requires
        0 <= i < j < listing(list).len(),
        listing(list)[i].name == Some(first) || listing(list)[i].name is None && first.len() == 0,
        listing(list)[j].name == Some(second) || listing(list)[j].name is None && second.len()
            == 0,
    ensures
        ({
            let a = listing(list)[i].address;
            let b = listing(list)[j].address;
            ||| exists|k: int| order::falls_behind_at(first, second, k)
            ||| first == second && (a == b || exists|k: int| order::falls_behind_at(a, b, k))
        }),
{
    law_listing(list);
    let a = listing(list)[i];
    let b = listing(list)[j];
    assert(!listed_before(b, a));
    let x = listed_name(a);
    let y = listed_name(b);
    assert(x =~= first && y =~= second);
    order::lemma_total(x, y);
    order::lemma_total(a.address, b.address);
    order::law_order(x, y);
    order::law_order(a.address, b.address);
    if x == y {
        assert(a.address == b.address || exists|k: int|
            order::falls_behind_at(a.address, b.address, k));
    } else {
        assert(exists|k: int| order::falls_behind_at(x, y, k));
    }
}

/// A listing has the peers that were to be listed, no more and no fewer.
pub proof fn law_listing_is_complete(list: Seq<PeerModel>)
    ensures
        listing(list).len() == list.len(),
        listing(list).to_multiset() == list.to_multiset(),
    decreases list.len(),
{
    broadcast use vstd::seq_lib::group_to_multiset_ensures;

    if list.len() > 0 {
        let front = list.drop_last();
        law_listing_is_complete(front);
        lemma_placed_multiset(listing(front), list.last());
        assert(list =~= front.push(list.last()));
    }
}

/// Placing adds one peer.
proof fn lemma_placed_multiset(list: Seq<PeerModel>, p: PeerModel)
    ensures
        placed(list, p).len() == list.len() + 1,
        placed(list, p).to_multiset() == list.to_multiset().insert(p),
    decreases list.len(),
{
    broadcast use vstd::seq_lib::group_to_multiset_ensures;

    if list.len() > 0 && listed_before(p, list.last()) {
        let front = list.drop_last();
        lemma_placed_multiset(front, p);
        assert(list =~= front.push(list.last()));
        assert(placed(list, p).to_multiset() =~= list.to_multiset().insert(p));
    }
}

/// A key that is read back from its line.
pub open spec fn is_key(key: Seq<char>) -> bool {
    key.len() > 0 && forall|i: int|
        0 <= i < key.len() ==> #[trigger] key[i] != '=' && !text::is_space(key[i])
}

/// What the line in the middle of some details states, with no line with the
/// same key behind it.
proof fn lemma_stated_in_the_middle(
    before: Seq<char>,
    key: Seq<char>,
    value: Seq<char>,
    after: Seq<char>,
)
    requires
        before.len() > 0 ==> before.last() == '\n',
        is_key(key),
        forall|i: int| 0 <= i < value.len() ==> #[trigger] value[i] != '\n',
        unstated(text::trimmed_lines(after), key),
    ensures
        last_stated(
            text::trimmed_lines(before + (key.push('=') + value).push('\n') + after),
            key,
            text::trimmed(value),
        ),
{
    let head = key.push('=');
    let line = head + value;
    let mid = line.push('\n');
    assert forall|i: int| 0 <= i < line.len() implies #[trigger] line[i] != '\n' by {
        if i < key.len() {
            assert(line[i] == key[i]);
        } else if i > key.len() {
            assert(line[i] == value[i - key.len() - 1]);
        }
    }
    text::lemma_trimmed_lines_concat(before, mid + after);
    text::lemma_trimmed_lines_concat(mid, after);
    text::lemma_trimmed_lines_single(line);
    let all = text::trimmed_lines(before + mid + after);
    assert(before + mid + after =~= before + (mid + after));
    let k = text::trimmed_lines(before).len() as int;
    assert(line[0] == key[0]);
    dialogue::lemma_trimmed_end_after(head, value);
    dialogue::lemma_trimmed_of_trimmed_end(value);
    exchange::lemma_trimmed_same(key);
    let rest = text::trimmed_end(value);
    assert(text::trimmed(line) == head + rest);
    assert(all[k] == key.push('=') + rest);
    assert(states(all[k], key, text::trimmed(value)));
    assert forall|j: int| k < j < all.len() implies !mentions(#[trigger] all[j], key) by {
        assert(all[j] == text::trimmed_lines(after)[j - k - 1]);
    }
}

/// The type of a peer is the value in the last line with the key
/// `pri_dev_type`, without white space around it, whatever the other lines are.
/// The key `device_type` counts only if there is no such line.
pub proof fn law_device_type(
    address: Seq<char>,
    before: Seq<char>,
    value: Seq<char>,
    after: Seq<char>,
)
    requires
        before.len() > 0 ==> before.last() == '\n',
        forall|i: int| 0 <= i < value.len() ==> #[trigger] value[i] != '\n',
    ensures
        unstated(text::trimmed_lines(after), "pri_dev_type"@) ==> peer_of(
            address,
            before + ("pri_dev_type"@.push('=') + value).push('\n') + after,
        ).device_type == Some(text::trimmed(value)),
        unstated(
            text::trimmed_lines(
                before + ("device_type"@.push('=') + value).push('\n') + after,
            ),
            "pri_dev_type"@,
        ) && unstated(text::trimmed_lines(after), "device_type"@) ==> peer_of(
            address,
            before + ("device_type"@.push('=') + value).push('\n') + after,
        ).device_type == Some(text::trimmed(value)),
{
    reveal_strlit("pri_dev_type");
    reveal_strlit("device_type");
    assert(is_key("pri_dev_type"@));
    assert(is_key("device_type"@));
    let first = before + ("pri_dev_type"@.push('=') + value).push('\n') + after;
    let second = before + ("device_type"@.push('=') + value).push('\n') + after;
    lemma_first_of_two(detail_fields(first), "pri_dev_type"@, "device_type"@);
    lemma_first_of_two(detail_fields(second), "pri_dev_type"@, "device_type"@);
    if unstated(text::trimmed_lines(after), "pri_dev_type"@) {
        lemma_stated_in_the_middle(before, "pri_dev_type"@, value, after);
        lemma_fields_stated(text::trimmed_lines(first), "pri_dev_type"@);
    }
    if unstated(text::trimmed_lines(second), "pri_dev_type"@) && unstated(
        text::trimmed_lines(after),
        "device_type"@,
    ) {
        lemma_stated_in_the_middle(before, "device_type"@, value, after);
        lemma_fields_stated(text::trimmed_lines(second), "pri_dev_type"@);
        lemma_fields_stated(text::trimmed_lines(second), "device_type"@);
    }
}

/// The name of a peer is read in the same way, with the keys `device_name` and
/// `name`.
pub proof fn law_peer_name(
    address: Seq<char>,
    before: Seq<char>,
    value: Seq<char>,
    after: Seq<char>,
)
    requires
        before.len() > 0 ==> before.last() == '\n',
        forall|i: int| 0 <= i < value.len() ==> #[trigger] value[i] != '\n',
    ensures
        unstated(text::trimmed_lines(after), "device_name"@) ==> peer_of(
            address,
            before + ("device_name"@.push('=') + value).push('\n') + after,
        ).name == Some(text::trimmed(value)),
        unstated(
            text::trimmed_lines(before + ("name"@.push('=') + value).push('\n') + after),
            "device_name"@,
        ) && unstated(text::trimmed_lines(after), "name"@) ==> peer_of(
            address,
            before + ("name"@.push('=') + value).push('\n') + after,
        ).name == Some(text::trimmed(value)),
{
    reveal_strlit("device_name");
    reveal_strlit("name");
    assert(is_key("device_name"@));
    assert(is_key("name"@));
    let first = before + ("device_name"@.push('=') + value).push('\n') + after;
    let second = before + ("name"@.push('=') + value).push('\n') + after;
    lemma_first_of_two(detail_fields(first), "device_name"@, "name"@);
    lemma_first_of_two(detail_fields(second), "device_name"@, "name"@);
    if unstated(text::trimmed_lines(after), "device_name"@) {
        lemma_stated_in_the_middle(before, "device_name"@, value, after);
        lemma_fields_stated(text::trimmed_lines(first), "device_name"@);
    }
    if unstated(text::trimmed_lines(second), "device_name"@) && unstated(
        text::trimmed_lines(after),
        "name"@,
    ) {
        lemma_stated_in_the_middle(before, "name"@, value, after);
        lemma_fields_stated(text::trimmed_lines(second), "device_name"@);
        lemma_fields_stated(text::trimmed_lines(second), "name"@);
    }
}

} // verus!
