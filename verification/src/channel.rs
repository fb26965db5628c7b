//! Telegram channels: how they are written, told apart and stored.
use crate::number::{
    decimal_int, format_hex, format_i64, hex_bytes, hex_pair, hex_text, i64_value,
    lemma_decimal_int_round_trip, lemma_hex_round_trip, lemma_hex_text_chars, parse_hex,
    parse_hex_pair, parse_i64,
};
use crate::search::{matching, matching_rows, needle_of, query_needle, row_texts};
use crate::sorting::{stable_order, stable_sort};
use crate::text::{
    after_last, ascii_digit, behind_last, contains_char, control, has_prefix, is_control,
    is_empty_text, lemma_splitn_prepend, lemma_trimmed_fixed, lowercased, split_n, splitn,
    starts_with, strip_end, strip_prefix, strip_start, stripped, text_from_utf8, texts, to_chars,
    to_lowercase, trim, trim_char, trim_end_char, trim_start_char, trimmed, white_space,
};
use vstd::prelude::*;
use vstd::utf8::{decode_utf8, encode_utf8, valid_utf8};

verus! {

/// What the identity of a private channel starts with.
pub const PRIVATE_CHANNEL_PREFIX: &'static str = "private:";

/// The channels whose catalogs are stored in this directory.
pub const CATALOG_DIR: &'static str = ".music-terminal/catalogs";

// ---------------------------------------------------------------------------
// Names of public channels
// ---------------------------------------------------------------------------

/// The user name in a name, a name with an at sign, or an address.
pub open spec fn channel_name(s: Seq<char>) -> Seq<char> {
    let t = strip_end(trimmed(s), '/');
    strip_start(t.skip(after_last(t, '/') as int), '@')
}

pub fn normalize_channel(channel: &str) -> (r: String)
    ensures
        r@ == channel_name(channel@),
{
    let t = trim_end_char(trim(channel).as_str(), '/');
    trim_start_char(behind_last(t.as_str(), '/').as_str(), '@')
}

/// The identity under which a channel is saved: that of a private channel as
/// it is, of a public one its user name.
pub open spec fn channel_identity(s: Seq<char>) -> Seq<char> {
    let t = trimmed(s);
    if has_prefix(t, PRIVATE_CHANNEL_PREFIX@) {
        t
    } else {
        channel_name(t)
    }
}

pub fn normalize_channel_identity(channel: &str) -> (r: String)
    ensures
        r@ == channel_identity(channel@),
{
    let t = trim(channel);
    if starts_with(t.as_str(), PRIVATE_CHANNEL_PREFIX) {
        t
    } else {
        normalize_channel(t.as_str())
    }
}

// ---------------------------------------------------------------------------
// File names
// ---------------------------------------------------------------------------

/// Characters that a file name cannot hold.
pub open spec fn forbidden_char(c: char) -> bool {
    c == '<' || c == '>' || c == ':' || c == '"' || c == '/' || c == '\\' || c == '|' || c == '?'
        || c == '*' || control(c)
}

pub open spec fn safe_char(c: char) -> char {
    if forbidden_char(c) {
        '_'
    } else {
        c
    }
}

pub open spec fn safe_name(s: Seq<char>) -> Seq<char> {
    let t = stripped(trimmed(s.map_values(|c: char| safe_char(c))), '.');
    if t.len() == 0 {
        "track.bin"@
    } else {
        t
    }
}

pub fn safe_file_name(name: &str) -> (r: String)
    ensures
        r@ == safe_name(name@),
{
    let chars = to_chars(name);
    let mut safe = String::new();
    let mut i: usize = 0;
    while i < chars.len()
        invariant
            i <= chars@.len(),
            chars@ == name@,
            safe@ =~= name@.take(i as int).map_values(|c: char| safe_char(c)),
        decreases chars@.len() - i,
    {
        let c = chars[i];
        if c == '<' || c == '>' || c == ':' || c == '"' || c == '/' || c == '\\' || c == '|' || c
            == '?' || c == '*' || is_control(c) {
            safe.push('_');
        } else {
            safe.push(c);
        }
        i += 1;
    }
    assert(name@.take(i as int) =~= name@);
    let t = trim_char(trim(safe.as_str()).as_str(), '.');
    if is_empty_text(t.as_str()) {
        "track.bin".to_string()
    } else {
        t
    }
}

/// A safe file name is not empty and holds no character that a file name
/// cannot hold.
pub proof fn safe_names_hold_no_forbidden_char(s: Seq<char>)
    ensures
        safe_name(s).len() > 0,
        forall|i: int| 0 <= i < safe_name(s).len() ==> !forbidden_char(#[trigger] safe_name(s)[i]),
{
    let m = s.map_values(|c: char| safe_char(c));
    let a = crate::text::trim_start(m);
    let b = trimmed(m);
    let c = strip_start(b, '.');
    let d = stripped(b, '.');
    crate::text::lemma_trim_start(m);
    crate::text::lemma_trim_end(a);
    crate::text::lemma_strip_start(b, '.');
    crate::text::lemma_strip_end(c, '.');
    reveal_strlit("track.bin");
    assert forall|i: int| 0 <= i < m.len() implies !forbidden_char(#[trigger] m[i]) by {
        assert(m[i] == safe_char(s[i]));
    }
    assert forall|i: int| 0 <= i < d.len() implies !forbidden_char(#[trigger] d[i]) by {
        assert(d[i] == c[i]);
        assert(c[i] == b[b.len() - c.len() + i]);
        let j = b.len() - c.len() + i;
        assert(b[j] == a[j]);
        assert(a[j] == m[m.len() - a.len() + j]);
    }
}

// ---------------------------------------------------------------------------
// Private channels
// ---------------------------------------------------------------------------

/// The address of a Telegram peer: its bot API dialog id, and the hash that
/// grants access to it.
#[derive(Clone, Copy, Debug, PartialEq, Eq, Structural)]
pub struct ChannelPeer {
    pub dialog_id: i64,
    pub access_hash: i64,
}

/// The ids that stand for users, groups, channels and forums.
pub open spec fn dialog_id(id: int) -> bool {
    ||| 1 <= id <= 0xff_ffff_ffff
    ||| -999999999999 <= id <= -1
    ||| -1997852516352 <= id <= -1000000000001
    ||| -4000000000000 <= id <= -2002147483649
}

/// The id of a peer among those of its sort.
pub open spec fn bare_dialog_id(id: int) -> int {
    if id > 0 {
        id
    } else if id >= -999999999999 {
        -id
    } else {
        -id - 1000000000000
    }
}

/// `grammers_session::types::PeerId::from_bot_api_dialog_id`: which ids it
/// accepts.
#[verifier::external_body]
fn known_dialog_id(id: i64) -> (r: bool)
    ensures
        r == dialog_id(id as int),
{
    grammers_session::types::PeerId::from_bot_api_dialog_id(id).is_some()
}

/// `grammers_session::types::PeerId::bare_id`, for a peer given by its dialog
/// id.
#[verifier::external_body]
fn bare_id(id: i64) -> (r: Option<i64>)
    ensures
        r == if dialog_id(id as int) {
            Some(bare_dialog_id(id as int) as i64)
        } else {
            None
        },
{
    grammers_session::types::PeerId::from_bot_api_dialog_id(id).and_then(|peer| peer.bare_id())
}

/// What the identity of a private channel holds.
pub struct PrivateChannel {
    pub peer: ChannelPeer,
    pub label: Seq<char>,
}

/// The identity of a private channel: its peer, and its title byte by byte.
pub open spec fn private_identity(peer: ChannelPeer, label: Seq<char>) -> Seq<char> {
    PRIVATE_CHANNEL_PREFIX@ + decimal_int(peer.dialog_id as int) + seq![':'] + decimal_int(
        peer.access_hash as int,
    ) + seq![':'] + hex_text(encode_utf8(label))
}

pub fn private_channel_identity(peer: ChannelPeer, label: &str) -> (r: String)
    ensures
        r@ == private_identity(peer, label@),
{
    let mut out = PRIVATE_CHANNEL_PREFIX.to_string();
    out.append(format_i64(peer.dialog_id).as_str());
    out.push(':');
    out.append(format_i64(peer.access_hash).as_str());
    out.push(':');
    out.append(format_hex(label.as_bytes()).as_str());
    assert(out@ =~= private_identity(peer, label@));
    out
}

/// The fields of a private channel's identity.
pub open spec fn private_fields(s: Seq<char>) -> Seq<Seq<char>> {
    splitn(s.skip(PRIVATE_CHANNEL_PREFIX@.len() as int), 3, ':')
}

/// The peer in a private channel's identity.
pub open spec fn private_peer(s: Seq<char>) -> Option<ChannelPeer> {
    let fields = private_fields(s);
    if !has_prefix(s, PRIVATE_CHANNEL_PREFIX@) || fields.len() < 2 {
        None
    } else {
        match (i64_value(fields[0]), i64_value(fields[1])) {
            (Some(id), Some(hash)) => if dialog_id(id as int) {
                Some(ChannelPeer { dialog_id: id, access_hash: hash })
            } else {
                None
            },
            _ => None,
        }
    }
}

/// What an identity says of a private channel, where it is one.
pub open spec fn private_channel(s: Seq<char>) -> Option<PrivateChannel> {
    let fields = private_fields(s);
    match private_peer(s) {
        Some(peer) => if fields.len() < 3 {
            None
        } else {
            match hex_bytes(fields[2]) {
                Some(bytes) => if valid_utf8(bytes) {
                    Some(PrivateChannel { peer, label: decode_utf8(bytes) })
                } else {
                    None
                },
                None => None,
            }
        },
        None => None,
    }
}

/// How many bytes a character takes in UTF-8.
pub open spec fn utf8_width(c: char) -> int {
    if (c as u32) < 0x80 {
        1
    } else if (c as u32) < 0x800 {
        2
    } else if (c as u32) < 0x10000 {
        3
    } else {
        4
    }
}

/// Whether pairs of bytes can be cut off a text, up to the first pair that
/// denotes no byte, without cutting a character in two.
pub open spec fn cuts_in_pairs(s: Seq<char>) -> bool
    decreases s.len(),
{
    if s.len() == 0 {
        true
    } else if utf8_width(s[0]) >= 2 {
        utf8_width(s[0]) == 2
    } else if s.len() == 1 {
        true
    } else if utf8_width(s[1]) >= 2 {
        false
    } else {
        hex_pair(s[0], s[1]) is None || cuts_in_pairs(s.skip(2))
    }
}

/// Whether the title in an identity can be read pair by pair. Every identity
/// that was made for a channel can; only one that was written by hand may put
/// a character of several bytes across two pairs.
pub open spec fn readable_identity(s: Seq<char>) -> bool {
    let fields = private_fields(s);
    private_peer(s) is Some && fields.len() >= 3 && encode_utf8(fields[2]).len() % 2 == 0
        ==> cuts_in_pairs(fields[2])
}

fn can_cut_in_pairs(chars: &Vec<char>, from: usize) -> (r: bool)
    requires
        from <= chars@.len(),
    ensures
        r == cuts_in_pairs(chars@.skip(from as int)),
    decreases chars@.len() - from,
{
    let ghost s = chars@.skip(from as int);
    if from == chars.len() {
        return true;
    }
    let a = chars[from];
    assert(s[0] == a);
    if a as u32 >= 0x80 {
        return (a as u32) < 0x800;
    }
    if chars.len() - from == 1 {
        return true;
    }
    let b = chars[from + 1];
    assert(s[1] == b);
    if b as u32 >= 0x80 {
        return false;
    }
    assert(s.skip(2) =~= chars@.skip(from + 2));
    parse_hex_pair(a, b).is_none() || can_cut_in_pairs(chars, from + 2)
}

/// The fields of an identity.
fn split_identity(channel: &str) -> (r: Option<(ChannelPeer, Option<String>)>)
    ensures
        match r {
            Some(found) => private_peer(channel@) == Some(found.0) && match found.1 {
                Some(encoded) => private_fields(channel@).len() >= 3 && encoded@ == private_fields(
                    channel@,
                )[2],
                None => private_fields(channel@).len() < 3,
            },
            None => private_peer(channel@) is None,
        },
{
    let value = match strip_prefix(channel, PRIVATE_CHANNEL_PREFIX) {
        Some(value) => value,
        None => return None,
    };
    let fields = split_n(value.as_str(), 3, ':');
    let ghost parts = private_fields(channel@);
    assert(texts(fields@) == parts);
    assert(fields@.len() == parts.len());
    if fields.len() < 2 {
        return None;
    }
    assert(parts[0] == fields@[0]@ && parts[1] == fields@[1]@);
    let id: i64 = match parse_i64(fields[0].as_str()) {
        Some(id) => id,
        None => return None,
    };
    let hash: i64 = match parse_i64(fields[1].as_str()) {
        Some(hash) => hash,
        None => return None,
    };
    if !known_dialog_id(id) {
        return None;
    }
    let peer = ChannelPeer { dialog_id: id, access_hash: hash };
    if fields.len() < 3 {
        Some((peer, None))
    } else {
        assert(parts[2] == fields@[2]@);
        Some((peer, Some(fields[2].as_str().to_string())))
    }
}

/// Whether the title in an identity can be read pair by pair.
pub fn is_readable_identity(channel: &str) -> (r: bool)
    ensures
        r == readable_identity(channel@),
{
    match split_identity(channel) {
        Some(found) => match found.1 {
            Some(encoded) => {
                if encoded.as_str().as_bytes().len() % 2 != 0 {
                    return true;
                }
                let chars = to_chars(encoded.as_str());
                assert(chars@.skip(0) =~= chars@);
                can_cut_in_pairs(&chars, 0)
            },
            None => true,
        },
        None => true,
    }
}

/// Reads the identity of a private channel.
pub fn parse_private_channel(channel: &str) -> (r: Option<(ChannelPeer, String)>)
    requires
        readable_identity(channel@),
    ensures
        match r {
            Some(found) => private_channel(channel@) == Some(
                (PrivateChannel { peer: found.0, label: found.1@ }),
            ),
            None => private_channel(channel@) is None,
        },
{
    match split_identity(channel) {
        Some(found) => match found.1 {
            Some(encoded) => match parse_hex(encoded.as_str()) {
                Some(bytes) => match text_from_utf8(bytes) {
                    Ok(label) => Some((found.0, label)),
                    Err(_) => None,
                },
                None => None,
            },
            None => None,
        },
        None => None,
    }
}

proof fn lemma_identity_fields(peer: ChannelPeer, label: Seq<char>)
    ensures
        has_prefix(private_identity(peer, label), PRIVATE_CHANNEL_PREFIX@),
        private_fields(private_identity(peer, label)) == seq![
            decimal_int(peer.dialog_id as int),
            decimal_int(peer.access_hash as int),
            hex_text(encode_utf8(label)),
        ],
{
    let prefix = PRIVATE_CHANNEL_PREFIX@;
    let a = decimal_int(peer.dialog_id as int);
    let b = decimal_int(peer.access_hash as int);
    let c = hex_text(encode_utf8(label));
    let s = private_identity(peer, label);
    let rest = b + seq![':'] + c;
    assert(s.take(prefix.len() as int) =~= prefix);
    assert(s.skip(prefix.len() as int) =~= a + seq![':'] + rest);
    lemma_decimal_int_round_trip(peer.dialog_id as int);
    lemma_decimal_int_round_trip(peer.access_hash as int);
    lemma_hex_text_chars(encode_utf8(label));
    assert(!a.contains(':')) by {
        if a.contains(':') {
            let k = choose|k: int| 0 <= k < a.len() && a[k] == ':';
            assert(ascii_digit(a[k]) || a[k] == '-');
        }
    }
    assert(!b.contains(':')) by {
        if b.contains(':') {
            let k = choose|k: int| 0 <= k < b.len() && b[k] == ':';
            assert(ascii_digit(b[k]) || b[k] == '-');
        }
    }
    lemma_splitn_prepend(a, rest, 3, ':');
    lemma_splitn_prepend(b, c, 2, ':');
    assert(splitn(c, 1, ':') == seq![c]);
    assert(private_fields(s) =~= seq![a, b, c]);
}

proof fn lemma_hex_text_cuts(bytes: Seq<u8>)
    ensures
        cuts_in_pairs(hex_text(bytes)),
    decreases bytes.len(),
{
    let s = hex_text(bytes);
    if bytes.len() > 0 {
        lemma_hex_text_chars(bytes);
        assert('0' <= s[0] <= 'f' && '0' <= s[1] <= 'f');
        assert(s.skip(2) =~= hex_text(bytes.skip(1)));
        lemma_hex_text_cuts(bytes.skip(1));
    }
}

/// The identity of a private channel gives back its peer and its title, and it
/// can always be read.
pub proof fn private_identity_round_trips(peer: ChannelPeer, label: Seq<char>)
    requires
        dialog_id(peer.dialog_id as int),
    ensures
        readable_identity(private_identity(peer, label)),
        private_channel(private_identity(peer, label)) == Some((PrivateChannel { peer, label })),
{
    lemma_identity_fields(peer, label);
    lemma_decimal_int_round_trip(peer.dialog_id as int);
    lemma_decimal_int_round_trip(peer.access_hash as int);
    lemma_hex_round_trip(encode_utf8(label));
    lemma_hex_text_cuts(encode_utf8(label));
    vstd::utf8::encode_utf8_valid_utf8(label);
    vstd::utf8::encode_utf8_decode_utf8(label);
}

/// Saving the identity of a private channel does not change it, and it fits
/// into one field of a line.
pub proof fn private_identity_is_kept(peer: ChannelPeer, label: Seq<char>)
    ensures
        channel_identity(private_identity(peer, label)) == private_identity(peer, label),
        !private_identity(peer, label).contains('\t'),
        !private_identity(peer, label).contains('\n'),
        !private_identity(peer, label).contains('\r'),
{
    let s = private_identity(peer, label);
    let prefix = PRIVATE_CHANNEL_PREFIX@;
    reveal_strlit("private:");
    lemma_identity_fields(peer, label);
    lemma_decimal_int_round_trip(peer.dialog_id as int);
    lemma_decimal_int_round_trip(peer.access_hash as int);
    lemma_hex_text_chars(encode_utf8(label));
    let a = decimal_int(peer.dialog_id as int);
    let b = decimal_int(peer.access_hash as int);
    let c = hex_text(encode_utf8(label));
    assert forall|i: int| 0 <= i < s.len() implies '-' <= #[trigger] s[i] <= 'v' by {
        let n = prefix.len() as int;
        if i < n {
            assert(s[i] == prefix[i]);
        } else if i < n + a.len() {
            assert(s[i] == a[i - n]);
            assert(ascii_digit(a[i - n]) || a[i - n] == '-');
        } else if i == n + a.len() {
            assert(s[i] == ':');
        } else if i < n + a.len() + 1 + b.len() {
            assert(s[i] == b[i - n - a.len() - 1]);
            let k = i - n - a.len() - 1;
            assert(ascii_digit(b[k]) || b[k] == '-');
        } else if i == n + a.len() + 1 + b.len() {
            assert(s[i] == ':');
        } else {
            assert(s[i] == c[i - n - a.len() - b.len() - 2]);
        }
    }
    lemma_trimmed_fixed(s);
}

/// What a channel is called on the screen.
pub open spec fn channel_label(s: Seq<char>) -> Seq<char> {
    match private_channel(s) {
        Some(channel) => "🔒 "@ + channel.label,
        None => "@"@ + channel_name(s),
    }
}

pub fn telegram_channel_label(channel: &str) -> (r: String)
    requires
        readable_identity(channel@),
    ensures
        r@ == channel_label(channel@),
{
    match parse_private_channel(channel) {
        Some(found) => {
            let mut out = "🔒 ".to_string();
            out.append(found.1.as_str());
            out
        },
        None => {
            let mut out = "@".to_string();
            out.append(normalize_channel(channel).as_str());
            out
        },
    }
}

/// The name of a channel's files.
pub open spec fn storage_key(s: Seq<char>) -> Seq<char> {
    match private_channel(s) {
        Some(channel) => "private-"@ + decimal_int(
            bare_dialog_id(channel.peer.dialog_id as int),
        ),
        None => safe_name(channel_name(s)),
    }
}

pub fn channel_storage_key(channel: &str) -> (r: String)
    requires
        readable_identity(channel@),
    ensures
        r@ == storage_key(channel@),
{
    if let Some(found) = parse_private_channel(channel) {
        if let Some(id) = bare_id(found.0.dialog_id) {
            let mut out = "private-".to_string();
            out.append(format_i64(id).as_str());
            return out;
        }
    }
    safe_file_name(normalize_channel(channel).as_str())
}

/// How a channel is found on Telegram.
#[derive(Debug, PartialEq, Eq)]
pub enum ChannelAddress {
    /// A private channel, by its peer.
    Peer(ChannelPeer),
    /// A public channel, by its user name.
    UserName(String),
}

/// How a saved channel is found.
pub fn channel_address(channel: &str) -> (r: Result<ChannelAddress, String>)
    requires
        readable_identity(channel@),
    ensures
        match r {
            Ok(ChannelAddress::Peer(peer)) => has_prefix(channel@, PRIVATE_CHANNEL_PREFIX@) && (
            private_channel(channel@) matches Some(found) && found.peer == peer),
            Ok(ChannelAddress::UserName(name)) => !has_prefix(channel@, PRIVATE_CHANNEL_PREFIX@)
                && name@ == channel_name(channel@),
            Err(e) => has_prefix(channel@, PRIVATE_CHANNEL_PREFIX@) && private_channel(
                channel@,
            ) is None && e@ == "invalid saved private channel; forget it and add it again"@,
        },
{
    if starts_with(channel, PRIVATE_CHANNEL_PREFIX) {
        return match parse_private_channel(channel) {
            Some(found) => Ok(ChannelAddress::Peer(found.0)),
            None => Err("invalid saved private channel; forget it and add it again".to_string()),
        };
    }
    Ok(ChannelAddress::UserName(normalize_channel(channel)))
}

/// The peer that an identity names, if it is that of a private channel.
pub open spec fn channel_peer(s: Seq<char>) -> Option<ChannelPeer> {
    match private_channel(s) {
        Some(channel) => Some(channel.peer),
        None => None,
    }
}

/// Whether a private channel is among saved ones: the peer decides, not the
/// title or the access hash.
pub open spec fn saved_among(channel: Seq<char>, saved: Seq<Seq<char>>) -> bool {
    channel_peer(channel) is Some && exists|i: int|
        0 <= i < saved.len() && (channel_peer(#[trigger] saved[i]) matches Some(peer)
            && peer.dialog_id == channel_peer(channel)->0.dialog_id)
}

pub fn private_channel_is_saved(channel: &str, saved_channels: &[String]) -> (r: bool)
    requires
        readable_identity(channel@),
        forall|i: int|
            0 <= i < saved_channels@.len() ==> readable_identity((#[trigger] saved_channels@[i])@),
    ensures
        r == saved_among(channel@, texts(saved_channels@)),
{
    let peer = match parse_private_channel(channel) {
        Some(found) => found.0,
        None => return false,
    };
    let ghost saved = texts(saved_channels@);
    let mut i: usize = 0;
    while i < saved_channels.len()
        invariant
            i <= saved_channels@.len(),
            saved == texts(saved_channels@),
            channel_peer(channel@) == Some(peer),
            forall|k: int|
                0 <= k < saved_channels@.len() ==> readable_identity(
                    (#[trigger] saved_channels@[k])@,
                ),
            forall|k: int|
                0 <= k < i ==> !(channel_peer(#[trigger] saved[k]) matches Some(other)
                    && other.dialog_id == peer.dialog_id),
        decreases saved_channels@.len() - i,
    {
        assert(saved[i as int] == saved_channels@[i as int]@);
        if let Some(found) = parse_private_channel(saved_channels[i].as_str()) {
            if found.0.dialog_id == peer.dialog_id {
                assert(channel_peer(saved[i as int]) == Some(found.0));
                return true;
            }
        }
        i += 1;
    }
    false
}

/// A saved private channel is recognized however its title or its access hash
/// has changed since.
pub proof fn saved_channel_is_recognized_by_its_peer(
    id: i64,
    old_hash: i64,
    old_label: Seq<char>,
    new_hash: i64,
    new_label: Seq<char>,
    saved: Seq<Seq<char>>,
)
    requires
        dialog_id(id as int),
        saved.contains(
            private_identity(ChannelPeer { dialog_id: id, access_hash: old_hash }, old_label),
        ),
    ensures
        saved_among(
            private_identity(ChannelPeer { dialog_id: id, access_hash: new_hash }, new_label),
            saved,
        ),
{
    let before = private_identity(ChannelPeer { dialog_id: id, access_hash: old_hash }, old_label);
    private_identity_round_trips(ChannelPeer { dialog_id: id, access_hash: old_hash }, old_label);
    private_identity_round_trips(ChannelPeer { dialog_id: id, access_hash: new_hash }, new_label);
    let i = choose|i: int| 0 <= i < saved.len() && saved[i] == before;
    assert(channel_peer(saved[i]) matches Some(peer) && peer.dialog_id == id);
}

/// A private channel is not taken for a saved one where every saved channel has
/// another peer.
pub proof fn other_channels_are_not_recognized(
    peer: ChannelPeer,
    label: Seq<char>,
    others: Seq<(ChannelPeer, Seq<char>)>,
    saved: Seq<Seq<char>>,
)
    requires
        dialog_id(peer.dialog_id as int),
        saved.len() == others.len(),
        forall|i: int|
            0 <= i < others.len() ==> {
                let other = #[trigger] others[i];
                &&& dialog_id(other.0.dialog_id as int)
                &&& other.0.dialog_id != peer.dialog_id
                &&& saved[i] == private_identity(other.0, other.1)
            },
    ensures
        !saved_among(private_identity(peer, label), saved),
{
    private_identity_round_trips(peer, label);
    assert forall|i: int| 0 <= i < saved.len() implies (channel_peer(
        #[trigger] saved[i],
    ) matches Some(found) && found.dialog_id != peer.dialog_id) by {
        private_identity_round_trips(others[i].0, others[i].1);
    }
}

/// Private channels with different peers are kept under different names.
pub proof fn storage_keys_differ(
    a: ChannelPeer,
    a_label: Seq<char>,
    b: ChannelPeer,
    b_label: Seq<char>,
)
    requires
        dialog_id(a.dialog_id as int),
        dialog_id(b.dialog_id as int),
        a.dialog_id <= -1000000000001,
        b.dialog_id <= -1000000000001,
        a.dialog_id != b.dialog_id,
    ensures
        storage_key(private_identity(a, a_label)) != storage_key(private_identity(b, b_label)),
{
    let x = bare_dialog_id(a.dialog_id as int);
    let y = bare_dialog_id(b.dialog_id as int);
    private_identity_round_trips(a, a_label);
    private_identity_round_trips(b, b_label);
    lemma_decimal_int_round_trip(x);
    lemma_decimal_int_round_trip(y);
    let start = "private-"@;
    assert((start + decimal_int(x)).skip(start.len() as int) =~= decimal_int(x));
    assert((start + decimal_int(y)).skip(start.len() as int) =~= decimal_int(y));
}

/// Normalizing the identity of a channel again changes nothing, where it holds
/// no white space.
pub proof fn normalizing_twice_is_normalizing_once(s: Seq<char>)
    requires
        forall|i: int| 0 <= i < s.len() ==> !white_space(#[trigger] s[i]),
    ensures
        channel_identity(channel_identity(s)) == channel_identity(s),
{
    lemma_trimmed_fixed(s);
    if !has_prefix(s, PRIVATE_CHANNEL_PREFIX@) {
        let t = strip_end(s, '/');
        let tail = t.skip(after_last(t, '/') as int);
        let name = strip_start(tail, '@');
        crate::text::lemma_strip_end(s, '/');
        crate::text::lemma_after_last(t, '/');
        crate::text::lemma_strip_start(tail, '@');
        let cut = after_last(t, '/') + tail.len() - name.len();
        assert forall|i: int| 0 <= i < name.len() implies #[trigger] name[i] != '/'
            && !white_space(name[i]) by {
            assert(name[i] == t[cut + i]);
            assert(t[cut + i] == s[cut + i]);
        }
        assert(name == channel_name(s));
        lemma_trimmed_fixed(name);
        crate::text::lemma_after_last(name, '/');
        assert(strip_end(name, '/') == name);
        assert(after_last(name, '/') == 0);
        assert(name.skip(0) =~= name);
        assert(channel_name(name) == name);
    }
}

/// Which of two catalogs of a channel is used.
#[derive(Debug, PartialEq, Eq)]
pub enum CatalogPath {
    /// The catalog is at this path.
    Use(String),
    /// A catalog under the name of an earlier version moves to its new path.
    Migrate { from: String, to: String },
}

pub open spec fn catalog_file(key: Seq<char>) -> Seq<char> {
    CATALOG_DIR@ + "/"@ + key + ".tracks.txt"@
}

/// Where the catalog of a channel is.
pub open spec fn catalog_path(channel: Seq<char>) -> Seq<char> {
    catalog_file(storage_key(channel))
}

/// Where an earlier version kept the catalog of a private channel.
pub open spec fn legacy_catalog_path(peer: ChannelPeer) -> Seq<char> {
    catalog_file("private-"@ + decimal_int(peer.dialog_id as int))
}

fn format_catalog_file(key: &str) -> (r: String)
    ensures
        r@ == catalog_file(key@),
{
    let mut out = CATALOG_DIR.to_string();
    out.append("/");
    out.append(key);
    out.append(".tracks.txt");
    out
}

/// Where the catalog of a channel is.
pub fn telegram_catalog_path(channel: &str) -> (r: String)
    requires
        readable_identity(channel@),
    ensures
        r@ == catalog_path(channel@),
{
    format_catalog_file(channel_storage_key(channel).as_str())
}

/// Where an earlier version kept the catalog of a channel.
pub fn telegram_legacy_catalog_path(channel: &str) -> (r: Option<String>)
    requires
        readable_identity(channel@),
    ensures
        match r {
            Some(path) => channel_peer(channel@) matches Some(peer) && path@
                == legacy_catalog_path(peer),
            None => channel_peer(channel@) is None,
        },
{
    match parse_private_channel(channel) {
        Some(found) => {
            let mut key = "private-".to_string();
            key.append(format_i64(found.0.dialog_id).as_str());
            Some(format_catalog_file(key.as_str()))
        },
        None => None,
    }
}

/// Which catalog of a channel is used, given which files exist.
pub fn choose_catalog_path(channel: &str, current_exists: bool, legacy_exists: bool) -> (r:
    CatalogPath)
    requires
        readable_identity(channel@),
    ensures
        match r {
            CatalogPath::Use(path) => path@ == catalog_path(channel@) && (current_exists
                || !legacy_exists || channel_peer(channel@) is None),
            CatalogPath::Migrate { from, to } => !current_exists && legacy_exists && (channel_peer(
                channel@,
            ) matches Some(peer) && from@ == legacy_catalog_path(peer)) && to@ == catalog_path(
                channel@,
            ),
        },
{
    let path = telegram_catalog_path(channel);
    if current_exists || !legacy_exists {
        return CatalogPath::Use(path);
    }
    match telegram_legacy_catalog_path(channel) {
        Some(from) => CatalogPath::Migrate { from, to: path },
        None => CatalogPath::Use(path),
    }
}

// ---------------------------------------------------------------------------
// Searching private channels, and invite links
// ---------------------------------------------------------------------------

/// The texts by which a private channel is found: its title and its id.
pub open spec fn channel_row(channel: (String, i64, String)) -> Seq<Seq<char>> {
    seq![lowercased(channel.0@), decimal_int(channel.1 as int)]
}

pub open spec fn channel_rows(channels: Seq<(String, i64, String)>) -> Seq<Seq<Seq<char>>> {
    channels.map_values(|channel: (String, i64, String)| channel_row(channel))
}

/// The texts by which private channels are found.
pub fn private_channel_rows(channels: &[(String, i64, String)]) -> (r: Vec<Vec<String>>)
    ensures
        row_texts(r@) == channel_rows(channels@),
{
    let mut rows: Vec<Vec<String>> = Vec::new();
    let mut i: usize = 0;
    while i < channels.len()
        invariant
            i <= channels@.len(),
            row_texts(rows@) == channel_rows(channels@).take(i as int),
        decreases channels@.len() - i,
    {
        let mut row: Vec<String> = Vec::new();
        row.push(to_lowercase(channels[i].0.as_str()));
        row.push(format_i64(channels[i].1));
        assert(texts(row@) =~= channel_row(channels@[i as int]));
        let ghost before = rows@;
        rows.push(row);
        assert(row_texts(rows@) =~= row_texts(before).push(texts(row@)));
        i += 1;
    }
    rows
}

pub fn search_private_channels(channels: &[(String, i64, String)], query: &str) -> (r: Vec<usize>)
    ensures
        r@ == matching(channel_rows(channels@), query_needle(query@)),
        forall|i: int, j: int| 0 <= i < j < r@.len() ==> (#[trigger] r@[i]) < (#[trigger] r@[j]),
        forall|i: int| 0 <= i < r@.len() ==> (#[trigger] r@[i]) < channels@.len(),
        ({
            let needle = lowercased(trimmed(query@));
            forall|k: int|
                #![trigger channels@[k]]
                0 <= k < channels@.len() ==> (r@.contains(k as usize) <==> {
                    let text0 = lowercased(channels@[k].0@);
                    let text1 = decimal_int(channels@[k].1 as int);
                    (exists|at: int|
                        0 <= at <= text0.len() - needle.len() && #[trigger] text0.subrange(
                            at,
                            at + needle.len(),
                        ) == needle) || (exists|at: int|
                        0 <= at <= text1.len() - needle.len() && #[trigger] text1.subrange(
                            at,
                            at + needle.len(),
                        ) == needle)
                })
        }),
{
    let rows = private_channel_rows(channels);
    let found = matching_rows(&rows, needle_of(query).as_str());
    proof {
        let all = channel_rows(channels@);
        let needle = lowercased(trimmed(query@));
        assert(rows.len() == row_texts(rows@).len());
        crate::search::search_finds_exactly_the_matches(all, query_needle(query@));
        assert forall|k: int|
            #![trigger channels@[k]]
            0 <= k < channels@.len() implies (found@.contains(k as usize) <==> {
                    let text0 = lowercased(channels@[k].0@);
                    let text1 = decimal_int(channels@[k].1 as int);
                    (exists|at: int|
                        0 <= at <= text0.len() - needle.len() && #[trigger] text0.subrange(
                            at,
                            at + needle.len(),
                        ) == needle) || (exists|at: int|
                        0 <= at <= text1.len() - needle.len() && #[trigger] text1.subrange(
                            at,
                            at + needle.len(),
                        ) == needle)
            }) by {
            crate::search::searches_look_for_the_whole_query(all, query@, k);
            assert(all[k].len() == 2);
            assert(all[k][0] == lowercased(channels@[k].0@));
            assert(all[k][1] == decimal_int(channels@[k].1 as int));
        }
    }
    found
}

/// A channel that a scan of an account found: its title, its id, and its
/// identity. Channels with a user name are public and are passed over.
pub fn private_channel_entry(title: &str, has_username: bool, peer: ChannelPeer) -> (r: Option<
    (String, i64, String),
>)
    ensures
        match r {
            Some(found) => !has_username && dialog_id(peer.dialog_id as int) && found.0@ == title@
                && found.1 == bare_dialog_id(peer.dialog_id as int) && found.2@
                == private_identity(peer, title@),
            None => has_username || !dialog_id(peer.dialog_id as int),
        },
{
    if has_username {
        return None;
    }
    match bare_id(peer.dialog_id) {
        Some(id) => Some((title.to_string(), id, private_channel_identity(peer, title))),
        None => None,
    }
}

/// What a found channel holds.
pub open spec fn found_channel(c: (String, i64, String)) -> (Seq<char>, i64, Seq<char>) {
    (c.0@, c.1, c.2@)
}

pub open spec fn found_channels(v: Seq<(String, i64, String)>) -> Seq<(Seq<char>, i64, Seq<char>)> {
    v.map_values(|c: (String, i64, String)| found_channel(c))
}

/// The keys by which found channels are sorted: their titles.
pub open spec fn title_keys(v: Seq<(String, i64, String)>) -> Seq<Seq<char>> {
    v.map_values(|c: (String, i64, String)| lowercased(c.0@))
}

/// Sorts found channels by their titles, without regard to case.
pub fn sort_private_channels(channels: &Vec<(String, i64, String)>) -> (r: Vec<
    (String, i64, String),
>)
    ensures
        exists|order: Seq<usize>| #[trigger]
            stable_sort(title_keys(channels@), order) && found_channels(r@) == order.map_values(
                |i: usize| found_channel(channels@[i as int]),
            ),
{
    let mut keys: Vec<String> = Vec::new();
    let mut i: usize = 0;
    while i < channels.len()
        invariant
            i <= channels@.len(),
            texts(keys@) =~= title_keys(channels@).take(i as int),
        decreases channels@.len() - i,
    {
        let key = to_lowercase(channels[i].0.as_str());
        let ghost before = keys@;
        keys.push(key);
        assert(texts(keys@) =~= texts(before).push(key@));
        i += 1;
    }
    assert(texts(keys@) =~= title_keys(channels@));
    let order = stable_order(&keys);
    let ghost want = order@.map_values(|i: usize| found_channel(channels@[i as int]));
    let mut out: Vec<(String, i64, String)> = Vec::new();
    let mut k: usize = 0;
    while k < order.len()
        invariant
            k <= order@.len(),
            want == order@.map_values(|i: usize| found_channel(channels@[i as int])),
            forall|j: int| 0 <= j < order@.len() ==> (#[trigger] order@[j]) < channels@.len(),
            found_channels(out@) =~= want.take(k as int),
        decreases order@.len() - k,
    {
        let at: usize = order[k];
        let c = (
            channels[at].0.as_str().to_string(),
            channels[at].1,
            channels[at].2.as_str().to_string(),
        );
        let ghost before = out@;
        out.push(c);
        assert(found_channels(out@) =~= found_channels(before).push(found_channel(c)));
        k += 1;
    }
    assert(found_channels(out@) =~= want);
    assert(stable_sort(title_keys(channels@), order@));
    out
}

/// Which found channels are saved already.
pub fn saved_flags(channels: &Vec<(String, i64, String)>, saved_channels: &[String]) -> (r: Vec<bool>)
    requires
        forall|i: int|
            0 <= i < channels@.len() ==> readable_identity((#[trigger] channels@[i]).2@),
        forall|i: int|
            0 <= i < saved_channels@.len() ==> readable_identity((#[trigger] saved_channels@[i])@),
    ensures
        r@.len() == channels@.len(),
        forall|i: int|
            0 <= i < r@.len() ==> #[trigger] r@[i] == saved_among(
                channels@[i].2@,
                texts(saved_channels@),
            ),
{
    let mut out: Vec<bool> = Vec::new();
    let mut i: usize = 0;
    while i < channels.len()
        invariant
            i <= channels@.len(),
            forall|k: int|
                0 <= k < channels@.len() ==> readable_identity((#[trigger] channels@[k]).2@),
            forall|k: int|
                0 <= k < saved_channels@.len() ==> readable_identity(
                    (#[trigger] saved_channels@[k])@,
                ),
            out@.len() == i,
            forall|k: int|
                0 <= k < i ==> #[trigger] out@[k] == saved_among(
                    channels@[k].2@,
                    texts(saved_channels@),
                ),
        decreases channels@.len() - i,
    {
        assert(readable_identity(channels@[i as int].2@));
        out.push(private_channel_is_saved(channels[i].2.as_str(), saved_channels));
        i += 1;
    }
    out
}

/// The hash behind one of the two forms of an invite link.
pub open spec fn invite_path_hash(path: Seq<char>) -> Option<Seq<char>> {
    if has_prefix(path, "+"@) {
        Some(path.skip("+"@.len() as int))
    } else if has_prefix(path, "joinchat/"@) {
        Some(path.skip("joinchat/"@.len() as int))
    } else {
        None
    }
}

/// The path of a link to Telegram.
pub open spec fn telegram_path(link: Seq<char>) -> Option<Seq<char>> {
    if has_prefix(link, "https://t.me/"@) {
        Some(link.skip("https://t.me/"@.len() as int))
    } else if has_prefix(link, "http://t.me/"@) {
        Some(link.skip("http://t.me/"@.len() as int))
    } else if has_prefix(link, "https://telegram.me/"@) {
        Some(link.skip("https://telegram.me/"@.len() as int))
    } else {
        None
    }
}

/// The hash in a link that invites to a private channel.
pub open spec fn invite_hash(link: Seq<char>) -> Option<Seq<char>> {
    match telegram_path(strip_end(trimmed(link), '/')) {
        Some(path) => match invite_path_hash(path) {
            Some(hash) => if hash.len() > 0 && !hash.contains('/') {
                Some(hash)
            } else {
                None
            },
            None => None,
        },
        None => None,
    }
}

pub fn private_invite_hash(link: &str) -> (r: Option<String>)
    ensures
        match r {
            Some(hash) => invite_hash(link@) == Some(hash@),
            None => invite_hash(link@) is None,
        },
{
    let link = trim_end_char(trim(link).as_str(), '/');
    let path = match strip_prefix(link.as_str(), "https://t.me/") {
        Some(path) => path,
        None => match strip_prefix(link.as_str(), "http://t.me/") {
            Some(path) => path,
            None => match strip_prefix(link.as_str(), "https://telegram.me/") {
                Some(path) => path,
                None => return None,
            },
        },
    };
    let hash = match strip_prefix(path.as_str(), "+") {
        Some(hash) => hash,
        None => match strip_prefix(path.as_str(), "joinchat/") {
            Some(hash) => hash,
            None => return None,
        },
    };
    if !is_empty_text(hash.as_str()) && !contains_char(hash.as_str(), '/') {
        Some(hash)
    } else {
        None
    }
}

// ---------------------------------------------------------------------------
// What holds of every channel
// ---------------------------------------------------------------------------

/// A public channel is named by its user name, with or without an at sign, and by
/// every address that ends in it, with or without a slash behind it.
pub proof fn channels_are_named_by_name_or_address(address: Seq<char>, name: Seq<char>)
    requires
        name.len() > 0,
        forall|i: int|
            0 <= i < name.len() ==> #[trigger] name[i] != '/' && name[i] != '@' && !white_space(
                name[i],
            ),
        address.len() > 0,
        address.last() == '/',
        !white_space(address[0]),
    ensures
        channel_name(name) == name,
        channel_name(seq!['@'] + name) == name,
        channel_name(address + name) == name,
        channel_name(address + name + seq!['/']) == name,
        channel_name(address + seq!['@'] + name) == name,
{
    lemma_name_behind(seq![], seq![], name);
    lemma_name_behind(seq![], seq!['@'], name);
    lemma_name_behind(address, seq![], name);
    lemma_name_behind(address, seq!['@'], name);
    assert(seq![] + seq![] + name =~= name);
    assert(seq![] + seq!['@'] + name =~= seq!['@'] + name);
    assert(address + seq![] + name =~= address + name);
    let slashed = address + name + seq!['/'];
    assert(slashed.drop_last() =~= address + name);
    lemma_trimmed_fixed(slashed);
    lemma_trimmed_fixed(address + name);
    assert(strip_end(slashed, '/') == strip_end(address + name, '/'));
}

proof fn lemma_name_behind(address: Seq<char>, at: Seq<char>, name: Seq<char>)
    requires
        name.len() > 0,
        forall|i: int|
            0 <= i < name.len() ==> #[trigger] name[i] != '/' && name[i] != '@' && !white_space(
                name[i],
            ),
        at == seq!['@'] || at == Seq::<char>::empty(),
        address.len() > 0 ==> address.last() == '/' && !white_space(address[0]),
    ensures
        channel_name(address + at + name) == name,
{
    let whole = address + at + name;
    let tail = at + name;
    assert(!white_space(name[0]));
    assert(whole.last() == name.last() && name.last() == name[name.len() - 1]);
    assert(whole[0] == if address.len() > 0 {
        address[0]
    } else {
        tail[0]
    });
    lemma_trimmed_fixed(whole);
    assert(strip_end(whole, '/') == whole);
    crate::text::lemma_after_last(whole, '/');
    let cut = after_last(whole, '/');
    if cut > address.len() {
        assert(whole[cut - 1] == tail[cut - 1 - address.len()]);
        if cut - 1 - address.len() >= at.len() {
            assert(tail[cut - 1 - address.len()] == name[cut - 1 - address.len() - at.len()]);
        }
    }
    if cut < address.len() {
        assert(whole[address.len() - 1] == address.last());
    }
    assert(cut == address.len());
    assert(whole.skip(cut as int) =~= tail);
    crate::text::stripping_removes_only_copies(tail, '@', at.len() as int);
    assert(tail[at.len() as int] == name[0]);
    assert(tail.skip(at.len() as int) =~= name);
}

/// File names keep the characters that they can hold, and have an underscore in
/// place of each of the others.
pub proof fn file_names_replace_only_forbidden_chars(s: Seq<char>, i: int)
    requires
        0 <= i < s.len(),
        s[0] != '.' && !white_space(s[0]),
        s.last() != '.' && !white_space(s.last()),
    ensures
        safe_name(s).len() == s.len(),
        ({
            let c = s[i];
            safe_name(s)[i] == if "<>:\"/\\|?*"@.contains(c) || (c as u32) < 32 || 127 <= (c as u32)
                < 160 {
                '_'
            } else {
                c
            }
        }),
{
    let list = "<>:\"/\\|?*"@;
    reveal_strlit("<>:\"/\\|?*");
    assert(list =~= seq!['<', '>', ':', '"', '/', '\\', '|', '?', '*']);
    let c = s[i];
    if list.contains(c) {
        let k = choose|k: int| 0 <= k < list.len() && list[k] == c;
        assert(forbidden_char(c));
    } else {
        assert(!list.contains(c));
        assert(list[0] != c && list[1] != c && list[2] != c && list[3] != c && list[4] != c
            && list[5] != c && list[6] != c && list[7] != c && list[8] != c);
    }
    let t = s.map_values(|c: char| safe_char(c));
    assert(t.last() == safe_char(s.last()));
    lemma_trimmed_fixed(t);
    assert(strip_start(t, '.') == t);
    assert(strip_end(t, '.') == t);
}

/// What is left with nothing has a name of its own.
pub proof fn empty_file_names_are_replaced(s: Seq<char>)
    requires
        forall|i: int| 0 <= i < s.len() ==> #[trigger] s[i] == '.',
    ensures
        safe_name(s) == "track.bin"@,
{
    let t = s.map_values(|c: char| safe_char(c));
    assert(t =~= s);
    lemma_trimmed_fixed(s);
    crate::text::stripping_removes_only_copies(s, '.', s.len() as int);
    assert(s.skip(s.len() as int) =~= seq![]);
}

/// A public channel is shown with an at sign, and has its catalog under its own
/// name, where a file can have it.
pub proof fn public_channels_are_shown_by_name(name: Seq<char>)
    requires
        name.len() > 0,
        name[0] != '.',
        name.last() != '.',
        forall|i: int|
            0 <= i < name.len() ==> #[trigger] name[i] != '/' && name[i] != '@' && !white_space(
                name[i],
            ) && !"<>:\"/\\|?*"@.contains(name[i]) && !control(name[i]),
    ensures
        channel_label(name) == seq!['@'] + name,
        storage_key(name) == name,
        catalog_path(name) == ".music-terminal/catalogs/"@ + name + ".tracks.txt"@,
{
    lemma_name_behind(seq![], seq![], name);
    assert(seq![] + seq![] + name =~= name);
    reveal_strlit("@");
    reveal_strlit("private:");
    reveal_strlit("/");
    reveal_strlit(".music-terminal/catalogs");
    reveal_strlit(".music-terminal/catalogs/");
    assert("@"@ =~= seq!['@']);
    if has_prefix(name, PRIVATE_CHANNEL_PREFIX@) {
        assert(name.take(8)[7] == ':');
        assert(name[7] == ':');
        reveal_strlit("<>:\"/\\|?*");
        assert("<>:\"/\\|?*"@[2] == ':');
    }
    assert(private_channel(name) is None);
    assert forall|i: int| 0 <= i < name.len() implies #[trigger] safe_name(name)[i] == name[i] by {
        assert(name[i] != '/');
        file_names_replace_only_forbidden_chars(name, i);
    }
    file_names_replace_only_forbidden_chars(name, 0);
    assert(safe_name(name) =~= name);
    assert(CATALOG_DIR@ + "/"@ =~= ".music-terminal/catalogs/"@);
}

/// A private channel is shown by its title behind a lock, and stored under its
/// own number, without the mark that channels have in a dialog.
pub proof fn private_channels_are_shown_by_title(n: int, access_hash: i64, title: Seq<char>)
    requires
        1 <= n <= 997852516352,
    ensures
        ({
            let peer = ChannelPeer { dialog_id: (-1000000000000 - n) as i64, access_hash };
            let identity = private_identity(peer, title);
            &&& channel_label(identity) == "🔒 "@ + title
            &&& storage_key(identity) == "private-"@ + decimal_int(n)
            &&& channel_peer(identity) == Some(peer)
        }),
{
    let peer = ChannelPeer { dialog_id: (-1000000000000 - n) as i64, access_hash };
    private_identity_round_trips(peer, title);
}

/// An invitation is accepted in each form in which Telegram writes it, and gives
/// what stands behind its path.
pub proof fn invitations_give_their_hash(hash: Seq<char>)
    requires
        hash.len() > 0,
        !hash.contains('/'),
        !white_space(hash.last()),
    ensures
        invite_hash("https://t.me/+"@ + hash) == Some(hash),
        invite_hash("http://t.me/+"@ + hash) == Some(hash),
        invite_hash("https://telegram.me/+"@ + hash) == Some(hash),
        invite_hash("https://t.me/joinchat/"@ + hash) == Some(hash),
        invite_hash("http://t.me/joinchat/"@ + hash) == Some(hash),
        invite_hash("https://telegram.me/joinchat/"@ + hash) == Some(hash),
{
    reveal_strlit("https://t.me/");
    reveal_strlit("http://t.me/");
    reveal_strlit("https://telegram.me/");
    reveal_strlit("https://t.me/+");
    reveal_strlit("http://t.me/+");
    reveal_strlit("https://telegram.me/+");
    reveal_strlit("https://t.me/joinchat/");
    reveal_strlit("http://t.me/joinchat/");
    reveal_strlit("https://telegram.me/joinchat/");
    reveal_strlit("+");
    reveal_strlit("joinchat/");
    assert("https://t.me/+"@ =~= "https://t.me/"@ + "+"@);
    assert("http://t.me/+"@ =~= "http://t.me/"@ + "+"@);
    assert("https://telegram.me/+"@ =~= "https://telegram.me/"@ + "+"@);
    assert("https://t.me/joinchat/"@ =~= "https://t.me/"@ + "joinchat/"@);
    assert("http://t.me/joinchat/"@ =~= "http://t.me/"@ + "joinchat/"@);
    assert("https://telegram.me/joinchat/"@ =~= "https://telegram.me/"@ + "joinchat/"@);
    lemma_invitation("https://t.me/"@, "+"@, hash);
    lemma_invitation("http://t.me/"@, "+"@, hash);
    lemma_invitation("https://telegram.me/"@, "+"@, hash);
    lemma_invitation("https://t.me/"@, "joinchat/"@, hash);
    lemma_invitation("http://t.me/"@, "joinchat/"@, hash);
    lemma_invitation("https://telegram.me/"@, "joinchat/"@, hash);
}

proof fn lemma_invitation(host: Seq<char>, kind: Seq<char>, hash: Seq<char>)
    requires
        hash.len() > 0,
        !hash.contains('/'),
        !white_space(hash.last()),
        host == "https://t.me/"@ || host == "http://t.me/"@ || host == "https://telegram.me/"@,
        kind == "+"@ || kind == "joinchat/"@,
    ensures
        invite_hash(host + kind + hash) == Some(hash),
{
    reveal_strlit("https://t.me/");
    reveal_strlit("http://t.me/");
    reveal_strlit("https://telegram.me/");
    reveal_strlit("+");
    reveal_strlit("joinchat/");
    let link = host + kind + hash;
    let path = kind + hash;
    assert(link[0] == 'h');
    assert(link.last() == hash.last());
    assert(hash.last() == hash[hash.len() - 1]);
    assert(hash.last() != '/');
    lemma_trimmed_fixed(link);
    assert(strip_end(link, '/') == link);
    assert(link.take(host.len() as int) =~= host);
    assert(link.skip(host.len() as int) =~= path);
    assert(path.take(kind.len() as int) =~= kind);
    assert(path.skip(kind.len() as int) =~= hash);
    if host == "http://t.me/"@ {
        assert(link[4] == ':');
        assert(link.take("https://t.me/"@.len() as int)[4] == ':');
        assert("https://t.me/"@[4] == 's');
    }
    if host == "https://telegram.me/"@ {
        assert(link[4] == 's');
        assert(link[9] == 'e');
        assert(link.take("https://t.me/"@.len() as int)[9] == 'e');
        assert("https://t.me/"@[9] == '.');
        assert(link.take("http://t.me/"@.len() as int)[4] == 's');
        assert("http://t.me/"@[4] == ':');
    }
    if kind == "joinchat/"@ {
        assert(path[0] == 'j');
        assert(path.take(1)[0] == 'j');
    }
}

/// Nothing else is an invitation.
pub proof fn only_invitations_give_a_hash(link: Seq<char>)
    requires
        invite_hash(link) is Some,
    ensures
        ({
            let hash = invite_hash(link)->0;
            let t = strip_end(trimmed(link), '/');
            &&& hash.len() > 0 && !hash.contains('/')
            &&& exists|host: Seq<char>, kind: Seq<char>|
                (host == "https://t.me/"@ || host == "http://t.me/"@ || host
                    == "https://telegram.me/"@) && (kind == "+"@ || kind == "joinchat/"@) && t
                    == #[trigger] (host + kind) + hash
        }),
{
    let t = strip_end(trimmed(link), '/');
    let hash = invite_hash(link)->0;
    let host = if has_prefix(t, "https://t.me/"@) {
        "https://t.me/"@
    } else if has_prefix(t, "http://t.me/"@) {
        "http://t.me/"@
    } else {
        "https://telegram.me/"@
    };
    let path = t.skip(host.len() as int);
    let kind = if has_prefix(path, "+"@) {
        "+"@
    } else {
        "joinchat/"@
    };
    assert(t =~= t.take(host.len() as int) + path);
    assert(path =~= path.take(kind.len() as int) + hash);
    assert(t =~= (host + kind) + hash);
}

} // verus!
