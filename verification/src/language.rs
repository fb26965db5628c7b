//! Display languages: language packs, the catalog of packs, and the lookup of
//! messages.
use crate::json::{
    array_member, json_document, parse_json, text_member, whole_member, Json, JsonData,
};
use crate::number::{
    decimal, explain_number, format_hex, format_usize, hex_text, number_error, parse_u64, u64_value,
};
use crate::paths::{extension_of_name, name_extension, only_name, single_name};
use crate::text::{
    all_hex_digits, ascii_alphanumeric, ascii_lowered, control, equal_ignoring_ascii_case, find,
    find_from, has_prefix, is_all_hex_digits, is_ascii_alphanumeric, is_control, is_empty_text,
    lines, list_of, same_text, slice_text, split_lines, starts_with, strip_end, text_from_utf8,
    texts, utf8_fault, to_ascii_lowered, to_chars, trim, trim_end_char, trimmed,
};
use vstd::prelude::*;
use vstd::utf8::{decode_utf8, valid_utf8};

verus! {

pub const LANGUAGE_FILE: &'static str = ".music-terminal/language.txt";

pub const LANGUAGE_DIR: &'static str = ".music-terminal/languages";

pub const CATALOG_URL: &'static str =
    "https://raw.githubusercontent.com/harrytien107/Music_Terminal_Player/main/languages/index.json";

pub const PACK_BASE_URL: &'static str =
    "https://raw.githubusercontent.com/harrytien107/Music_Terminal_Player/main/languages/";

/// The largest pack or catalog that is read.
pub const MAX_PACK_BYTES: u64 = 1048576;

#[derive(Clone, Copy, Debug, PartialEq, Eq, Structural)]
pub enum Language {
    English,
    Vietnamese,
}

pub open spec fn language_code(language: Language) -> Seq<char> {
    match language {
        Language::English => "en"@,
        Language::Vietnamese => "vi"@,
    }
}

pub open spec fn language_file_name(language: Language) -> Seq<char> {
    match language {
        Language::English => "en.lang"@,
        Language::Vietnamese => "vi.lang"@,
    }
}

impl Language {
    pub fn code(self) -> (r: &'static str)
        ensures
            r@ == language_code(self),
    {
        match self {
            Language::English => "en",
            Language::Vietnamese => "vi",
        }
    }

    pub fn label(self) -> (r: &'static str)
        ensures
            r@ == match self {
                Language::English => "English"@,
                Language::Vietnamese => "Tiếng Việt"@,
            },
    {
        match self {
            Language::English => "English",
            Language::Vietnamese => "Tiếng Việt",
        }
    }

    pub fn file_name(self) -> (r: &'static str)
        ensures
            r@ == language_file_name(self),
    {
        match self {
            Language::English => "en.lang",
            Language::Vietnamese => "vi.lang",
        }
    }
}

/// The language that a saved setting names; anything unknown is English.
pub open spec fn named_language(text: Seq<char>) -> Language {
    if ascii_lowered(trimmed(text)) == "vi"@ {
        Language::Vietnamese
    } else {
        Language::English
    }
}

pub fn parse_language(text: &str) -> (r: Language)
    ensures
        r == named_language(text@),
{
    if same_text(to_ascii_lowered(trim(text).as_str()).as_str(), "vi") {
        Language::Vietnamese
    } else {
        Language::English
    }
}

/// What the settings file of a language holds.
pub fn language_setting(language: Language) -> (r: String)
    ensures
        r@ == language_code(language) + "\n"@,
{
    let mut out = language.code().to_string();
    out.append("\n");
    out
}

/// A saved language is read back.
pub proof fn saved_language_round_trips(language: Language)
    ensures
        named_language(language_code(language) + "\n"@) == language,
{
    reveal_strlit("en");
    reveal_strlit("vi");
    reveal_strlit("\n");
    let code = language_code(language);
    let text = code + "\n"@;
    assert(text.drop_last() =~= code);
    crate::text::lemma_trimmed_fixed(code);
    assert(crate::text::trim_start(text) == text);
    assert(crate::text::trim_end(text) == crate::text::trim_end(code));
    assert(crate::text::trim_end(code) == code);
    assert(trimmed(text) == code);
    assert(ascii_lowered(code) =~= code);
    assert("en"@ != "vi"@) by {
        assert("en"@[0] != "vi"@[0]);
    }
}

/// Where the pack of a language is installed.
pub open spec fn pack_path(language: Language) -> Seq<char> {
    LANGUAGE_DIR@ + "/"@ + language_file_name(language)
}

pub fn language_path(language: Language) -> (r: String)
    ensures
        r@ == pack_path(language),
{
    let mut out = LANGUAGE_DIR.to_string();
    out.append("/");
    out.append(language.file_name());
    out
}

// ---------------------------------------------------------------------------
// Language packs
// ---------------------------------------------------------------------------

/// The messages of one language.
pub struct LanguagePack {
    pub name: String,
    pub version: u64,
    pub messages: vstd::hash_map::StringHashMap<String>,
}

/// What a language pack holds.
pub struct PackData {
    pub name: Seq<char>,
    pub version: u64,
    pub messages: Map<Seq<char>, Seq<char>>,
}

/// A map of strings by what they hold.
pub open spec fn held_texts(m: Map<Seq<char>, String>) -> Map<Seq<char>, Seq<char>> {
    m.map_values(|s: String| s@)
}

impl LanguagePack {
    pub open spec fn view(&self) -> PackData {
        PackData {
            name: self.name@,
            version: self.version,
            messages: held_texts(self.messages@),
        }
    }
}

/// The character behind a backslash in a pack value stands for this one.
pub open spec fn escape_char(c: char) -> Option<char> {
    if c == 'n' {
        Some('\n')
    } else if c == 'r' {
        Some('\r')
    } else if c == 't' {
        Some('\t')
    } else if c == '\\' {
        Some('\\')
    } else {
        None
    }
}

/// A pack value with its escapes replaced, or what is wrong with the first
/// escape that cannot be.
pub open spec fn unescaped(s: Seq<char>) -> Result<Seq<char>, Seq<char>>
    decreases s.len(),
{
    if s.len() == 0 {
        Ok(seq![])
    } else if s[0] != '\\' {
        match unescaped(s.skip(1)) {
            Ok(rest) => Ok(seq![s[0]] + rest),
            Err(e) => Err(e),
        }
    } else if s.len() == 1 {
        Err("language-pack value ends with an escape"@)
    } else {
        match escape_char(s[1]) {
            Some(c) => match unescaped(s.skip(2)) {
                Ok(rest) => Ok(seq![c] + rest),
                Err(e) => Err(e),
            },
            None => Err("unsupported language-pack escape: \\"@ + seq![s[1]]),
        }
    }
}

/// A control character that no message may hold.
pub open spec fn terminal_control(c: char) -> bool {
    control(c) && c != '\n' && c != '\r' && c != '\t'
}

pub open spec fn has_terminal_control(s: Seq<char>) -> bool {
    exists|i: int| 0 <= i < s.len() && terminal_control(#[trigger] s[i])
}

pub open spec fn pack_value(s: Seq<char>) -> Result<Seq<char>, Seq<char>> {
    match unescaped(s) {
        Ok(text) => if has_terminal_control(text) {
            Err("language-pack value contains a terminal control character"@)
        } else {
            Ok(text)
        },
        Err(e) => Err(e),
    }
}

pub fn parse_pack_value(value: &str) -> (r: Result<String, String>)
    ensures
        match r {
            Ok(text) => pack_value(value@) == Ok::<Seq<char>, Seq<char>>(text@),
            Err(e) => pack_value(value@) == Err::<Seq<char>, Seq<char>>(e@),
        },
{
    let chars = to_chars(value);
    let mut decoded = String::new();
    let mut i: usize = 0;
    assert(chars@.skip(0) =~= chars@);
    while i < chars.len()
        invariant
            i <= chars@.len(),
            chars@ == value@,
            match unescaped(chars@.skip(i as int)) {
                Ok(rest) => unescaped(value@) == Ok::<Seq<char>, Seq<char>>(decoded@ + rest),
                Err(e) => unescaped(value@) == Err::<Seq<char>, Seq<char>>(e),
            },
        decreases chars@.len() - i,
    {
        let c = chars[i];
        let ghost rest = chars@.skip(i as int);
        let ghost before = decoded@;
        assert(rest[0] == c);
        assert(rest.skip(1) =~= chars@.skip(i + 1));
        if c != '\\' {
            decoded.push(c);
            i += 1;
            proof {
                if let Ok(more) = unescaped(rest.skip(1)) {
                    assert(before + (seq![c] + more) =~= decoded@ + more);
                }
            }
        } else {
            if i + 1 >= chars.len() {
                return Err("language-pack value ends with an escape".to_string());
            }
            let e = chars[i + 1];
            assert(rest[1] == e);
            assert(rest.skip(2) =~= chars@.skip(i + 2));
            let replaced = if e == 'n' {
                '\n'
            } else if e == 'r' {
                '\r'
            } else if e == 't' {
                '\t'
            } else if e == '\\' {
                '\\'
            } else {
                let mut message = "unsupported language-pack escape: \\".to_string();
                message.push(e);
                assert(message@ =~= "unsupported language-pack escape: \\"@ + seq![e]);
                return Err(message);
            };
            decoded.push(replaced);
            i += 2;
            proof {
                if let Ok(more) = unescaped(rest.skip(2)) {
                    assert(before + (seq![replaced] + more) =~= decoded@ + more);
                }
            }
        }
    }
    assert(chars@.skip(i as int) =~= Seq::<char>::empty());
    assert(decoded@ + Seq::<char>::empty() =~= decoded@);
    let found = to_chars(decoded.as_str());
    let mut k: usize = 0;
    while k < found.len()
        invariant
            k <= found@.len(),
            found@ == decoded@,
            unescaped(value@) == Ok::<Seq<char>, Seq<char>>(decoded@),
            forall|j: int| 0 <= j < k ==> !terminal_control(#[trigger] decoded@[j]),
        decreases found@.len() - k,
    {
        let c = found[k];
        if is_control(c) && c != '\n' && c != '\r' && c != '\t' {
            assert(terminal_control(decoded@[k as int]));
            return Err("language-pack value contains a terminal control character".to_string());
        }
        k += 1;
    }
    Ok(decoded)
}

/// One line of a pack: nothing, a field, or what is wrong with it.
pub enum PackLine {
    Blank,
    Field(Seq<char>, Seq<char>),
    Fault(Seq<char>),
}

pub open spec fn key_char(c: char) -> bool {
    ascii_alphanumeric(c) || c == '.' || c == '_'
}

pub open spec fn pack_key(key: Seq<char>) -> bool {
    key.len() > 0 && forall|i: int| 0 <= i < key.len() ==> key_char(#[trigger] key[i])
}

/// Line `index` of a pack, which the messages count from one.
pub open spec fn pack_line(raw: Seq<char>, index: int) -> PackLine {
    let line = strip_end(raw, '\r');
    let at = find(line, '=') as int;
    if line.len() == 0 || line[0] == '#' {
        PackLine::Blank
    } else if at >= line.len() {
        PackLine::Fault("language-pack line "@ + decimal((index + 1) as nat) + " has no ="@)
    } else if !pack_key(line.take(at)) {
        PackLine::Fault(
            "language-pack line "@ + decimal((index + 1) as nat) + " has an invalid key"@,
        )
    } else {
        match pack_value(line.skip(at + 1)) {
            Ok(value) => PackLine::Field(line.take(at), value),
            Err(e) => PackLine::Fault(e),
        }
    }
}

/// The fields of the first `n` lines of a pack.
pub open spec fn pack_fields(rows: Seq<Seq<char>>, n: nat) -> Result<
    Map<Seq<char>, Seq<char>>,
    Seq<char>,
>
    decreases n,
{
    if n == 0 {
        Ok(Map::empty())
    } else {
        match pack_fields(rows, (n - 1) as nat) {
            Ok(fields) => match pack_line(rows[n - 1], n - 1) {
                PackLine::Blank => Ok(fields),
                PackLine::Field(key, value) => if fields.contains_key(key) {
                    Err("language pack contains duplicate key "@ + key)
                } else {
                    Ok(fields.insert(key, value))
                },
                PackLine::Fault(e) => Err(e),
            },
            Err(e) => Err(e),
        }
    }
}

/// The fields that are messages.
pub open spec fn message_fields(fields: Map<Seq<char>, Seq<char>>) -> Map<Seq<char>, Seq<char>> {
    fields.restrict(Set::new(|key: Seq<char>| has_prefix(key, "msg."@)))
}

/// The pack that a text holds, or the first thing that is wrong with it.
pub open spec fn pack_of(text: Seq<char>, expected: Option<Language>) -> Result<
    PackData,
    Seq<char>,
> {
    match pack_fields(lines(text), lines(text).len()) {
        Err(e) => Err(e),
        Ok(fields) => if !fields.contains_key("language.code"@) {
            Err("language pack has no language.code"@)
        } else if expected is Some && fields["language.code"@] != language_code(
            expected->0,
        ) {
            Err(
                "language pack code does not match Some(\""@ + language_code(expected->0)
                    + "\")"@,
            )
        } else if !fields.contains_key("language.name"@) {
            Err("language pack has no language.name"@)
        } else if !fields.contains_key("language.version"@) {
            Err("language pack has no language.version"@)
        } else {
            match u64_value(fields["language.version"@]) {
                None => Err(
                    "language pack has an invalid language.version: "@ + number_error(
                        fields["language.version"@],
                        false,
                        u64::MAX as nat,
                    ),
                ),
                Some(version) => Ok(
                    PackData {
                        name: fields["language.name"@],
                        version,
                        messages: message_fields(fields),
                    },
                ),
            }
        },
    }
}

/// No message of a pack can steer the terminal.
pub proof fn messages_hold_no_terminal_control(
    text: Seq<char>,
    expected: Option<Language>,
    key: Seq<char>,
)
    requires
        pack_of(text, expected) matches Ok(pack) && pack.messages.contains_key(key),
    ensures
        !has_terminal_control(pack_of(text, expected)->Ok_0.messages[key]),
        has_prefix(key, "msg."@),
{
    lemma_fields_hold_no_terminal_control(lines(text), lines(text).len(), key);
}

proof fn lemma_fields_hold_no_terminal_control(rows: Seq<Seq<char>>, n: nat, key: Seq<char>)
    requires
        pack_fields(rows, n) matches Ok(fields) && fields.contains_key(key),
    ensures
        !has_terminal_control(pack_fields(rows, n)->Ok_0[key]),
    decreases n,
{
    if n > 0 {
        let before = pack_fields(rows, (n - 1) as nat)->Ok_0;
        if before.contains_key(key) {
            lemma_fields_hold_no_terminal_control(rows, (n - 1) as nat, key);
        }
    }
}

fn is_pack_key(key: &str) -> (r: bool)
    ensures
        r == pack_key(key@),
{
    let chars = to_chars(key);
    let mut i: usize = 0;
    while i < chars.len()
        invariant
            i <= chars@.len(),
            chars@ == key@,
            forall|j: int| 0 <= j < i ==> key_char(#[trigger] key@[j]),
        decreases chars@.len() - i,
    {
        let c = chars[i];
        if !(is_ascii_alphanumeric(c) || c == '.' || c == '_') {
            assert(!key_char(key@[i as int]));
            return false;
        }
        i += 1;
    }
    chars.len() > 0
}

fn line_fault(index: usize, what: &str) -> (r: String)
    requires
        index < usize::MAX,
    ensures
        r@ == "language-pack line "@ + decimal((index + 1) as nat) + what@,
{
    let mut out = "language-pack line ".to_string();
    out.append(format_usize(index + 1).as_str());
    out.append(what);
    out
}

fn parse_pack_line(raw: &str, index: usize) -> (r: Result<Option<(String, String)>, String>)
    requires
        index < usize::MAX,
    ensures
        match r {
            Ok(None) => pack_line(raw@, index as int) == PackLine::Blank,
            Ok(Some(field)) => pack_line(raw@, index as int) == PackLine::Field(
                field.0@,
                field.1@,
            ),
            Err(e) => pack_line(raw@, index as int) == PackLine::Fault(e@),
        },
{
    let line = trim_end_char(raw, '\r');
    let chars = to_chars(line.as_str());
    if chars.len() == 0 || chars[0] == '#' {
        return Ok(None);
    }
    let at: usize = find_from(&chars, 0, '=');
    proof {
        assert(chars@.skip(0) =~= chars@);
        crate::text::lemma_find(chars@, '=');
    }
    if at >= chars.len() {
        return Err(line_fault(index, " has no ="));
    }
    let key = slice_text(&chars, 0, at);
    assert(key@ =~= line@.take(at as int));
    if !is_pack_key(key.as_str()) {
        return Err(line_fault(index, " has an invalid key"));
    }
    let value = slice_text(&chars, at + 1, chars.len());
    assert(value@ =~= line@.skip(at + 1));
    match parse_pack_value(value.as_str()) {
        Ok(value) => Ok(Some((key, value))),
        Err(e) => Err(e),
    }
}

fn with_text(prefix: &str, text: &str) -> (r: String)
    ensures
        r@ == prefix@ + text@,
{
    let mut out = prefix.to_string();
    out.append(text);
    out
}

pub fn parse_pack(text: &str, expected: Option<Language>) -> (r: Result<LanguagePack, String>)
    ensures
        match r {
            Ok(pack) => pack_of(text@, expected) == Ok::<PackData, Seq<char>>(pack@),
            Err(e) => pack_of(text@, expected) == Err::<PackData, Seq<char>>(e@),
        },
{
    let rows = split_lines(text);
    let ghost row_texts = texts(rows@);
    let mut fields: vstd::hash_map::StringHashMap<String> = vstd::hash_map::StringHashMap::new();
    let mut messages: vstd::hash_map::StringHashMap<String> = vstd::hash_map::StringHashMap::new();
    let mut i: usize = 0;
    assert(held_texts(fields@) =~= Map::<Seq<char>, Seq<char>>::empty());
    assert(held_texts(messages@) =~= message_fields(Map::<Seq<char>, Seq<char>>::empty()));
    while i < rows.len()
        invariant
            i <= rows@.len(),
            row_texts == texts(rows@),
            row_texts == lines(text@),
            pack_fields(row_texts, i as nat) == Ok::<Map<Seq<char>, Seq<char>>, Seq<char>>(
                held_texts(fields@),
            ),
            held_texts(messages@) == message_fields(held_texts(fields@)),
        decreases rows@.len() - i,
    {
        assert(row_texts[i as int] == rows@[i as int]@);
        match parse_pack_line(rows[i].as_str(), i) {
            Err(e) => {
                proof {
                    assert(pack_fields(row_texts, (i + 1) as nat) == Err::<
                        Map<Seq<char>, Seq<char>>,
                        Seq<char>,
                    >(e@));
                    lemma_pack_fault(row_texts, (i + 1) as nat, row_texts.len());
                }
                return Err(e);
            },
            Ok(None) => {},
            Ok(Some(field)) => {
                let (key, value) = field;
                if fields.contains_key(key.as_str()) {
                    let e = with_text("language pack contains duplicate key ", key.as_str());
                    proof {
                        assert(held_texts(fields@).contains_key(key@));
                        assert(pack_fields(row_texts, (i + 1) as nat) == Err::<
                            Map<Seq<char>, Seq<char>>,
                            Seq<char>,
                        >(e@));
                        lemma_pack_fault(row_texts, (i + 1) as nat, row_texts.len());
                    }
                    return Err(e);
                }
                let ghost old_fields = held_texts(fields@);
                let ghost old_messages = held_texts(messages@);
                if starts_with(key.as_str(), "msg.") {
                    messages.insert(key.as_str().to_string(), value.as_str().to_string());
                    assert(held_texts(messages@) =~= old_messages.insert(key@, value@));
                    assert(message_fields(old_fields.insert(key@, value@)) =~= message_fields(
                        old_fields,
                    ).insert(key@, value@));
                } else {
                    assert(message_fields(old_fields.insert(key@, value@)) =~= message_fields(
                        old_fields,
                    ));
                }
                fields.insert(key.as_str().to_string(), value.as_str().to_string());
                assert(held_texts(fields@) =~= old_fields.insert(key@, value@));
            },
        }
        i += 1;
    }
    let code = match fields.get("language.code") {
        Some(code) => code.as_str().to_string(),
        None => return Err("language pack has no language.code".to_string()),
    };
    match expected {
        Some(language) => if !same_text(code.as_str(), language.code()) {
            let mut e = with_text("language pack code does not match Some(\"", language.code());
            e.append("\")");
            return Err(e);
        },
        None => {},
    }
    let name = match fields.get("language.name") {
        Some(name) => name.as_str().to_string(),
        None => return Err("language pack has no language.name".to_string()),
    };
    let version = match fields.get("language.version") {
        Some(version) => version.as_str().to_string(),
        None => return Err("language pack has no language.version".to_string()),
    };
    match parse_u64(version.as_str()) {
        Some(version) => Ok(LanguagePack { name, version, messages }),
        None => Err(
            with_text(
                "language pack has an invalid language.version: ",
                explain_number(version.as_str(), false, u64::MAX),
            ),
        ),
    }
}

proof fn lemma_pack_fault(rows: Seq<Seq<char>>, n: nat, m: nat)
    requires
        n <= m,
        pack_fields(rows, n) is Err,
    ensures
        pack_fields(rows, m) == pack_fields(rows, n),
    decreases m,
{
    if n < m {
        lemma_pack_fault(rows, n, (m - 1) as nat);
    }
}

/// Whether a text is a pack of a language.
pub fn validate_language_pack(text: &str, expected: Language) -> (r: Result<(), String>)
    ensures
        match r {
            Ok(_) => pack_of(text@, Some(expected)) is Ok,
            Err(e) => pack_of(text@, Some(expected)) == Err::<PackData, Seq<char>>(e@),
        },
{
    match parse_pack(text, Some(expected)) {
        Ok(_) => Ok(()),
        Err(e) => Err(e),
    }
}

/// The pack of an installed file of a given size.
pub fn installed_pack(language: Language, size: u64, text: &str) -> (r: Result<
    LanguagePack,
    String,
>)
    ensures
        match r {
            Ok(pack) => size <= MAX_PACK_BYTES && pack_of(text@, Some(language)) == Ok::<
                PackData,
                Seq<char>,
            >(pack@),
            Err(e) => if size > MAX_PACK_BYTES {
                e@ == "installed language pack is larger than 1 MiB"@
            } else {
                pack_of(text@, Some(language)) == Err::<PackData, Seq<char>>(e@)
            },
        },
{
    if size > MAX_PACK_BYTES {
        return Err("installed language pack is larger than 1 MiB".to_string());
    }
    parse_pack(text, Some(language))
}

// ---------------------------------------------------------------------------
// Messages
// ---------------------------------------------------------------------------

/// The messages that the player has without any pack.
pub open spec fn english_messages() -> Map<Seq<char>, Seq<char>> {
    Map::empty().insert("msg.off"@, "off"@).insert("msg.all"@, "all"@).insert(
        "msg.one"@,
        "one"@,
    ).insert("msg.p_play_pause"@, "[p] play/pause"@).insert(
        "msg.v_previous"@,
        "[v] previous"@,
    ).insert("msg.n_next"@, "[n] next"@).insert("msg.r_shuffle"@, "[r] shuffle"@).insert(
        "msg.l_loop"@,
        "[l] loop"@,
    ).insert("msg.u_queue"@, "[u] queue"@).insert("msg.volume"@, "[+/-] volume"@).insert(
        "msg.b_menu"@,
        "[b] menu"@,
    ).insert("msg.q_quit"@, "[q] quit"@).insert("msg.playback_queue"@, "Playback queue"@).insert(
        "msg.songs"@,
        "songs"@,
    ).insert("msg.now_playing"@, "Now playing"@).insert(
        "msg.next_in_queue"@,
        "Next in queue"@,
    ).insert("msg.next_from_track_list"@, "Next from track list"@).insert(
        "msg.up_down_select_enter_confirm_esc_back_q"@,
        "\r\n[Up/Down] select | [Enter] confirm | [Esc] back | [q] quit"@,
    ).insert(
        "msg.up_down_select_enter_play_delete_unqueue_a"@,
        "[Up/Down] select | [Enter] play | [Delete] unqueue | [a] add songs | [Esc] back"@,
    )
}

fn put(messages: &mut vstd::hash_map::StringHashMap<String>, key: &str, text: &str)
    ensures
        held_texts(final(messages)@) == held_texts(old(messages)@).insert(key@, text@),
{
    let value = text.to_string();
    messages.insert(key.to_string(), value);
    assert(held_texts(messages@) =~= held_texts(old(messages)@).insert(key@, text@));
}

pub fn english_pack() -> (r: LanguagePack)
    ensures
        r@ == (PackData { name: "English"@, version: 1, messages: english_messages() }),
{
    let mut m: vstd::hash_map::StringHashMap<String> = vstd::hash_map::StringHashMap::new();
    assert(held_texts(m@) =~= Map::<Seq<char>, Seq<char>>::empty());
    put(&mut m, "msg.off", "off");
    put(&mut m, "msg.all", "all");
    put(&mut m, "msg.one", "one");
    put(&mut m, "msg.p_play_pause", "[p] play/pause");
    put(&mut m, "msg.v_previous", "[v] previous");
    put(&mut m, "msg.n_next", "[n] next");
    put(&mut m, "msg.r_shuffle", "[r] shuffle");
    put(&mut m, "msg.l_loop", "[l] loop");
    put(&mut m, "msg.u_queue", "[u] queue");
    put(&mut m, "msg.volume", "[+/-] volume");
    put(&mut m, "msg.b_menu", "[b] menu");
    put(&mut m, "msg.q_quit", "[q] quit");
    put(&mut m, "msg.playback_queue", "Playback queue");
    put(&mut m, "msg.songs", "songs");
    put(&mut m, "msg.now_playing", "Now playing");
    put(&mut m, "msg.next_in_queue", "Next in queue");
    put(&mut m, "msg.next_from_track_list", "Next from track list");
    put(
        &mut m,
        "msg.up_down_select_enter_confirm_esc_back_q",
        "\r\n[Up/Down] select | [Enter] confirm | [Esc] back | [q] quit",
    );
    put(
        &mut m,
        "msg.up_down_select_enter_play_delete_unqueue_a",
        "[Up/Down] select | [Enter] play | [Delete] unqueue | [a] add songs | [Esc] back",
    );
    LanguagePack { name: "English".to_string(), version: 1, messages: m }
}

/// The chosen language and the packs that are loaded.
pub struct Translation {
    pub language: Language,
    pub english: LanguagePack,
    pub vietnamese: Option<LanguagePack>,
}

impl Translation {
    /// The text of a message: from the pack of the chosen language, else from
    /// the English one, else the key itself.
    pub open spec fn text(&self, key: Seq<char>) -> Seq<char> {
        if self.language != Language::English && self.vietnamese is Some
            && self.vietnamese->0@.messages.contains_key(key) {
            self.vietnamese->0@.messages[key]
        } else if self.english@.messages.contains_key(key) {
            self.english@.messages[key]
        } else {
            key
        }
    }

    /// The chosen language.
    pub fn language(&self) -> (r: Language)
        ensures
            r == self.language,
    {
        self.language
    }

    /// Chooses a language. Any but English needs its pack, which is kept; with
    /// no pack given, one that is loaded already serves.
    pub fn set_language(&mut self, language: Language, pack: Option<LanguagePack>) -> (r: bool)
        ensures
            r == (language == Language::English || pack is Some || old(self).vietnamese is Some),
            final(self).english == old(self).english,
            !r ==> *final(self) == *old(self),
            r ==> final(self).language == language,
            r ==> final(self).vietnamese == if language != Language::English && pack is Some {
                pack
            } else {
                old(self).vietnamese
            },
    {
        if language == Language::English {
            self.language = language;
            return true;
        }
        if pack.is_some() {
            self.vietnamese = pack;
            self.language = language;
            return true;
        }
        if self.vietnamese.is_some() {
            self.language = language;
            return true;
        }
        false
    }
}

/// The translation at the start: the saved language where it is known and its
/// pack is installed, English otherwise.
pub fn load_language(saved: Option<&str>, installed: Option<LanguagePack>) -> (r: Translation)
    ensures
        r.english@ == (PackData { name: "English"@, version: 1, messages: english_messages() }),
        ({
            let wanted = match saved {
                Some(text) => named_language(text@),
                None => Language::English,
            };
            if wanted != Language::English && installed is Some {
                r.language == wanted && r.vietnamese == installed
            } else {
                r.language == Language::English && r.vietnamese is None
            }
        }),
{
    let wanted = match saved {
        Some(text) => parse_language(text),
        None => Language::English,
    };
    if wanted == Language::Vietnamese && installed.is_some() {
        Translation { language: wanted, english: english_pack(), vietnamese: installed }
    } else {
        Translation { language: Language::English, english: english_pack(), vietnamese: None }
    }
}

/// Looks a message up.
pub fn tr(translation: &Translation, key: &str) -> (r: String)
    ensures
        r@ == translation.text(key@),
{
    if translation.language != Language::English {
        if let Some(pack) = &translation.vietnamese {
            if let Some(value) = pack.messages.get(key) {
                return value.as_str().to_string();
            }
        }
    }
    match translation.english.messages.get(key) {
        Some(value) => value.as_str().to_string(),
        None => key.to_string(),
    }
}

/// The version of a language that is installed, given the text of its pack.
pub fn installed_language_version(language: Language, text: Option<&str>) -> (r: Option<u64>)
    ensures
        r == match language {
            Language::English => Some(1u64),
            Language::Vietnamese => match text {
                Some(text) => match pack_of(text@, Some(language)) {
                    Ok(pack) => Some(pack.version),
                    Err(_) => None,
                },
                None => None,
            },
        },
{
    if language == Language::English {
        return Some(1);
    }
    match text {
        Some(text) => match parse_pack(text, Some(language)) {
            Ok(pack) => Some(pack.version),
            Err(_) => None,
        },
        None => None,
    }
}

// ---------------------------------------------------------------------------
// The catalog of packs
// ---------------------------------------------------------------------------

/// A pack that can be installed.
#[derive(Debug, PartialEq, Eq)]
pub struct LanguageInfo {
    pub language: Language,
    pub name: String,
    pub version: u64,
    pub file: String,
    pub sha256: String,
}

/// What the description of a pack holds.
pub struct InfoData {
    pub language: Language,
    pub name: Seq<char>,
    pub version: u64,
    pub file: Seq<char>,
    pub sha256: Seq<char>,
}

impl LanguageInfo {
    pub open spec fn view(&self) -> InfoData {
        InfoData {
            language: self.language,
            name: self.name@,
            version: self.version,
            file: self.file@,
            sha256: self.sha256@,
        }
    }
}

pub open spec fn infos(v: Seq<LanguageInfo>) -> Seq<InfoData> {
    v.map_values(|i: LanguageInfo| i@)
}

/// A file name without directory that ends in `.lang`.
pub open spec fn pack_file_name(file: Seq<char>) -> bool {
    only_name(file) matches Some(name) && name_extension(name) == Some("lang"@)
}

pub fn validate_pack_file_name(file: &str) -> (r: Result<(), String>)
    ensures
        match r {
            Ok(_) => pack_file_name(file@),
            Err(e) => !pack_file_name(file@) && e@ == "invalid language-pack file name"@,
        },
{
    if let Some(name) = single_name(file) {
        if let Some(ext) = extension_of_name(name.as_str()) {
            if same_text(ext.as_str(), "lang") {
                return Ok(());
            }
        }
    }
    Err("invalid language-pack file name".to_string())
}

/// A text member that is there and not empty.
pub open spec fn required_text(entry: JsonData, key: Seq<char>) -> Option<Seq<char>> {
    match text_member(entry, key) {
        Some(text) => if text.len() > 0 {
            Some(text)
        } else {
            None
        },
        None => None,
    }
}

pub open spec fn missing(key: Seq<char>) -> Seq<char> {
    "language catalog entry has no "@ + key
}

/// The language that an entry of the catalog is for.
pub open spec fn entry_language(entry: JsonData) -> Option<Language> {
    match text_member(entry, "code"@) {
        Some(code) => if code == "vi"@ {
            Some(Language::Vietnamese)
        } else if code == "en"@ {
            Some(Language::English)
        } else {
            None
        },
        None => None,
    }
}

/// One entry of the catalog, for a language that no earlier entry was for.
pub open spec fn entry_info(entry: JsonData, language: Language) -> Result<InfoData, Seq<char>> {
    match required_text(entry, "name"@) {
        None => Err(missing("name"@)),
        Some(name) => match whole_member(entry, "version"@) {
            None => Err("language catalog entry has no valid version"@),
            Some(version) => match required_text(entry, "file"@) {
                None => Err(missing("file"@)),
                Some(file) => if !pack_file_name(file) {
                    Err("invalid language-pack file name"@)
                } else if file != language_file_name(language) {
                    Err(
                        "language catalog file does not match code "@ + language_code(language),
                    )
                } else {
                    match required_text(entry, "sha256"@) {
                        None => Err(missing("sha256"@)),
                        Some(sha256) => if sha256.len() != 64 || !all_hex_digits(
                            ascii_lowered(sha256),
                        ) {
                            Err("language catalog entry has an invalid SHA-256"@)
                        } else {
                            Ok(
                                InfoData {
                                    language,
                                    name,
                                    version,
                                    file,
                                    sha256: ascii_lowered(sha256),
                                },
                            )
                        },
                    }
                },
            },
        },
    }
}

pub open spec fn lists_language(found: Seq<InfoData>, language: Language) -> bool {
    exists|i: int| 0 <= i < found.len() && (#[trigger] found[i]).language == language
}

/// The first `n` entries of the catalog. Entries for unknown languages are
/// passed over.
pub open spec fn catalog_infos(entries: Seq<JsonData>, n: nat) -> Result<
    Seq<InfoData>,
    Seq<char>,
>
    decreases n,
{
    if n == 0 {
        Ok(Seq::empty())
    } else {
        match catalog_infos(entries, (n - 1) as nat) {
            Err(e) => Err(e),
            Ok(found) => match entry_language(entries[n - 1]) {
                None => Ok(found),
                Some(language) => if lists_language(found, language) {
                    Err("language catalog contains duplicate code "@ + language_code(language))
                } else {
                    match entry_info(entries[n - 1], language) {
                        Ok(info) => Ok(found.push(info)),
                        Err(e) => Err(e),
                    }
                },
            },
        }
    }
}

/// The packs that a catalog document lists.
pub open spec fn catalog_of(document: Result<JsonData, Seq<char>>) -> Result<
    Seq<InfoData>,
    Seq<char>,
> {
    match document {
        Err(cause) => Err("invalid language catalog JSON: "@ + cause),
        Ok(root) => if whole_member(root, "format"@) != Some(1u64) {
            Err("unsupported language catalog format"@)
        } else {
            match array_member(root, "languages"@) {
                None => Err("language catalog has no languages array"@),
                Some(entries) => catalog_infos(entries, entries.len()),
            }
        },
    }
}

fn required_catalog_string(entry: &Json, key: &str) -> (r: Result<String, String>)
    ensures
        match r {
            Ok(text) => required_text(entry@, key@) == Some(text@),
            Err(e) => required_text(entry@, key@) is None && e@ == missing(key@),
        },
{
    if let Some(member) = entry.member(key) {
        if let Some(text) = member.as_text() {
            if !is_empty_text(text.as_str()) {
                return Ok(text.as_str().to_string());
            }
        }
    }
    Err(with_text("language catalog entry has no ", key))
}

fn catalog_entry(entry: &Json, language: Language) -> (r: Result<LanguageInfo, String>)
    ensures
        match r {
            Ok(info) => entry_info(entry@, language) == Ok::<InfoData, Seq<char>>(info@),
            Err(e) => entry_info(entry@, language) == Err::<InfoData, Seq<char>>(e@),
        },
{
    let name = match required_catalog_string(entry, "name") {
        Ok(name) => name,
        Err(e) => return Err(e),
    };
    let found: Option<u64> = match entry.member("version") {
        Some(member) => member.as_u64(),
        None => None,
    };
    let version: u64 = match found {
        Some(version) => version,
        None => return Err("language catalog entry has no valid version".to_string()),
    };
    let file = match required_catalog_string(entry, "file") {
        Ok(file) => file,
        Err(e) => return Err(e),
    };
    match validate_pack_file_name(file.as_str()) {
        Ok(_) => {},
        Err(e) => return Err(e),
    }
    if !same_text(file.as_str(), language.file_name()) {
        return Err(with_text("language catalog file does not match code ", language.code()));
    }
    let written = match required_catalog_string(entry, "sha256") {
        Ok(sha256) => sha256,
        Err(e) => return Err(e),
    };
    let sha256 = to_ascii_lowered(written.as_str());
    if to_chars(sha256.as_str()).len() != 64 || !is_all_hex_digits(sha256.as_str()) {
        return Err("language catalog entry has an invalid SHA-256".to_string());
    }
    Ok(LanguageInfo { language, name, version, file, sha256 })
}

proof fn lemma_catalog_fault(entries: Seq<JsonData>, n: nat, m: nat)
    requires
        n <= m,
        catalog_infos(entries, n) is Err,
    ensures
        catalog_infos(entries, m) == catalog_infos(entries, n),
    decreases m,
{
    if n < m {
        lemma_catalog_fault(entries, n, (m - 1) as nat);
    }
}

/// The packs that a document lists; an error says why there is no document.
pub fn read_language_catalog(document: Result<&Json, &str>) -> (r: Result<
    Vec<LanguageInfo>,
    String,
>)
    ensures
        ({
            let data = match document {
                Ok(root) => Ok::<JsonData, Seq<char>>(root@),
                Err(cause) => Err::<JsonData, Seq<char>>(cause@),
            };
            match r {
                Ok(found) => catalog_of(data) == Ok::<Seq<InfoData>, Seq<char>>(infos(found@)),
                Err(e) => catalog_of(data) == Err::<Seq<InfoData>, Seq<char>>(e@),
            }
        }),
{
    let root = match document {
        Ok(root) => root,
        Err(cause) => return Err(with_text("invalid language catalog JSON: ", cause)),
    };
    let format: Option<u64> = match root.member("format") {
        Some(member) => member.as_u64(),
        None => None,
    };
    match format {
        Some(version) if version == 1 => {},
        _ => return Err("unsupported language catalog format".to_string()),
    }
    let listed = match root.member("languages") {
        Some(member) => member.as_array(),
        None => None,
    };
    let entries = match listed {
        Some(entries) => entries,
        None => return Err("language catalog has no languages array".to_string()),
    };
    let ghost data = array_member(root@, "languages"@)->0;
    let mut found: Vec<LanguageInfo> = Vec::new();
    let mut i: usize = 0;
    assert(infos(found@) =~= Seq::<InfoData>::empty());
    while i < entries.len()
        invariant
            i <= entries@.len(),
            data.len() == entries@.len(),
            forall|j: int| 0 <= j < data.len() ==> #[trigger] data[j] == entries@[j]@,
            catalog_infos(data, i as nat) == Ok::<Seq<InfoData>, Seq<char>>(infos(found@)),
            document == Ok::<&Json, &str>(root),
            catalog_of(Ok::<JsonData, Seq<char>>(root@)) == catalog_infos(data, data.len()),
        decreases entries@.len() - i,
    {
        let entry = &entries[i];
        assert(data[i as int] == entry@);
        let code = match entry.member("code") {
            Some(member) => member.as_text(),
            None => None,
        };
        let language = match code {
            Some(code) => if same_text(code.as_str(), "vi") {
                Some(Language::Vietnamese)
            } else if same_text(code.as_str(), "en") {
                Some(Language::English)
            } else {
                None
            },
            None => None,
        };
        assert(language == entry_language(data[i as int]));
        if let Some(language) = language {
            let mut seen = false;
            let mut k: usize = 0;
            while k < found.len()
                invariant
                    k <= found@.len(),
                    seen == lists_language(infos(found@).take(k as int), language),
                decreases found@.len() - k,
            {
                let ghost part = infos(found@).take(k as int);
                let ghost next = infos(found@).take(k + 1);
                assert(next =~= part.push(found@[k as int]@));
                let same = found[k].language == language;
                proof {
                    if same {
                        assert(next[k as int].language == language);
                    }
                    if seen {
                        let j = choose|j: int|
                            0 <= j < part.len() && (#[trigger] part[j]).language == language;
                        assert(next[j].language == language);
                    }
                    if lists_language(next, language) && !same {
                        let j = choose|j: int|
                            0 <= j < next.len() && (#[trigger] next[j]).language == language;
                        assert(part[j].language == language);
                    }
                }
                if same {
                    seen = true;
                }
                k += 1;
            }
            assert(infos(found@).take(k as int) =~= infos(found@));
            if seen {
                let e = with_text("language catalog contains duplicate code ", language.code());
                proof {
                    assert(catalog_infos(data, (i + 1) as nat) == Err::<
                        Seq<InfoData>,
                        Seq<char>,
                    >(e@));
                    lemma_catalog_fault(data, (i + 1) as nat, data.len());
                }
                return Err(e);
            }
            match catalog_entry(entry, language) {
                Ok(info) => {
                    let ghost before = found@;
                    found.push(info);
                    assert(infos(found@) =~= infos(before).push(info@));
                },
                Err(e) => {
                    proof {
                        assert(catalog_infos(data, (i + 1) as nat) == Err::<
                            Seq<InfoData>,
                            Seq<char>,
                        >(e@));
                        lemma_catalog_fault(data, (i + 1) as nat, data.len());
                    }
                    return Err(e);
                },
            }
        }
        i += 1;
    }
    Ok(found)
}

/// The packs that the text of a catalog lists.
pub fn parse_language_catalog(text: &str) -> (r: Result<Vec<LanguageInfo>, String>)
    ensures
        match r {
            Ok(found) => catalog_of(json_document(text@)) == Ok::<Seq<InfoData>, Seq<char>>(
                infos(found@),
            ),
            Err(e) => catalog_of(json_document(text@)) == Err::<Seq<InfoData>, Seq<char>>(e@),
        },
{
    match parse_json(text) {
        Ok(root) => read_language_catalog(Ok(&root)),
        Err(e) => read_language_catalog(Err(e.as_str())),
    }
}

/// What was downloaded as a catalog: its packs, unless it is too large or no
/// text.
pub fn accept_language_catalog(bytes: Vec<u8>) -> (r: Result<Vec<LanguageInfo>, String>)
    ensures
        match r {
            Ok(found) => bytes@.len() <= MAX_PACK_BYTES && valid_utf8(bytes@) && catalog_of(
                json_document(decode_utf8(bytes@)),
            ) == Ok::<Seq<InfoData>, Seq<char>>(infos(found@)),
            Err(e) => if bytes@.len() > MAX_PACK_BYTES {
                e@ == "language catalog is larger than 1 MiB"@
            } else if !valid_utf8(bytes@) {
                e@ == "language catalog is not UTF-8: "@ + utf8_fault(bytes@)
            } else {
                catalog_of(json_document(decode_utf8(bytes@))) == Err::<
                    Seq<InfoData>,
                    Seq<char>,
                >(e@)
            },
        },
{
    if bytes.len() as u64 > MAX_PACK_BYTES {
        return Err("language catalog is larger than 1 MiB".to_string());
    }
    match text_from_utf8(bytes) {
        Ok(text) => parse_language_catalog(text.as_str()),
        Err(e) => Err(with_text("language catalog is not UTF-8: ", e.as_str())),
    }
}

/// No catalog that is accepted lists a language twice.
pub proof fn catalog_lists_each_language_once(entries: Seq<JsonData>, n: nat)
    requires
        catalog_infos(entries, n) is Ok,
    ensures
        ({
            let found = catalog_infos(entries, n)->Ok_0;
            forall|i: int, j: int|
                0 <= i < j < found.len() ==> (#[trigger] found[i]).language != (
                #[trigger] found[j]).language
        }),
    decreases n,
{
    if n > 0 {
        catalog_lists_each_language_once(entries, (n - 1) as nat);
        let before = catalog_infos(entries, (n - 1) as nat)->Ok_0;
        let found = catalog_infos(entries, n)->Ok_0;
        assert forall|i: int, j: int| 0 <= i < j < found.len() implies (
        #[trigger] found[i]).language != (#[trigger] found[j]).language by {
            if j == before.len() {
                assert(before[i] == found[i]);
            } else {
                assert(before[i] == found[i] && before[j] == found[j]);
            }
        }
    }
}

// ---------------------------------------------------------------------------
// Installing a pack
// ---------------------------------------------------------------------------

/// The files and the address of a pack that is to be installed.
#[derive(Debug, PartialEq, Eq)]
pub struct PackDownload {
    pub url: String,
    pub temporary: String,
    pub destination: String,
}

/// How a pack is installed; English needs none.
pub fn plan_install(info: &LanguageInfo) -> (r: Result<Option<PackDownload>, String>)
    ensures
        match r {
            Ok(None) => info.language == Language::English,
            Ok(Some(plan)) => info.language != Language::English && pack_file_name(info.file@)
                && plan.url@ == PACK_BASE_URL@ + info.file@ && plan.destination@ == pack_path(
                info.language,
            ) && plan.temporary@ == pack_path(info.language) + ".download"@,
            Err(e) => info.language != Language::English && !pack_file_name(info.file@) && e@
                == "invalid language-pack file name"@,
        },
{
    if info.language == Language::English {
        return Ok(None);
    }
    match validate_pack_file_name(info.file.as_str()) {
        Ok(_) => {},
        Err(e) => return Err(e),
    }
    let destination = language_path(info.language);
    let temporary = with_text(destination.as_str(), ".download");
    let url = with_text(PACK_BASE_URL, info.file.as_str());
    Ok(Some(PackDownload { url, temporary, destination }))
}

/// The arguments that make curl print the catalog.
pub fn catalog_request() -> (r: Vec<String>)
    ensures
        texts(r@) == seq![
            "--fail"@,
            "--location"@,
            "--silent"@,
            "--show-error"@,
            "--max-filesize"@,
            "1048576"@,
            "--max-time"@,
            "10"@,
            CATALOG_URL@,
        ],
{
    let mut r = list_of(
        vec![
            "--fail",
            "--location",
            "--silent",
            "--show-error",
            "--max-filesize",
            "1048576",
            "--max-time",
            "10",
        ],
    );
    r.push(CATALOG_URL.to_string());
    assert(texts(r@) =~= seq![
        "--fail"@,
        "--location"@,
        "--silent"@,
        "--show-error"@,
        "--max-filesize"@,
        "1048576"@,
        "--max-time"@,
        "10"@,
        CATALOG_URL@,
    ]);
    r
}

/// The arguments that make curl download a pack.
pub fn pack_request(plan: &PackDownload) -> (r: Vec<String>)
    ensures
        texts(r@) == seq![
            "--fail"@,
            "--location"@,
            "--silent"@,
            "--show-error"@,
            "--max-filesize"@,
            "1048576"@,
            "--max-time"@,
            "30"@,
            "--output"@,
            plan.temporary@,
            plan.url@,
        ],
{
    let mut r = list_of(
        vec![
            "--fail",
            "--location",
            "--silent",
            "--show-error",
            "--max-filesize",
            "1048576",
            "--max-time",
            "30",
            "--output",
        ],
    );
    r.push(plan.temporary.as_str().to_string());
    r.push(plan.url.as_str().to_string());
    assert(texts(r@) =~= seq![
        "--fail"@,
        "--location"@,
        "--silent"@,
        "--show-error"@,
        "--max-filesize"@,
        "1048576"@,
        "--max-time"@,
        "30"@,
        "--output"@,
        plan.temporary@,
        plan.url@,
    ]);
    r
}

/// What `sha2::Sha256::digest` returns.
pub uninterp spec fn sha256_digest(bytes: Seq<u8>) -> Seq<u8>;

/// `sha2::Sha256::digest`: 32 bytes that depend on the input alone.
#[verifier::external_body]
fn sha256(bytes: &[u8]) -> (r: Vec<u8>)
    ensures
        r@ == sha256_digest(bytes@),
        r@.len() == 32,
{
    <sha2::Sha256 as sha2::Digest>::digest(bytes).to_vec()
}

/// Whether downloaded bytes with a given digest are the pack that the catalog
/// describes.
pub open spec fn accepted_pack(info: InfoData, digest: Seq<u8>, bytes: Seq<u8>) -> Result<
    PackData,
    Seq<char>,
> {
    if bytes.len() > MAX_PACK_BYTES {
        Err("language pack is larger than 1 MiB"@)
    } else if ascii_lowered(hex_text(digest)) != ascii_lowered(info.sha256) {
        Err("language-pack SHA-256 does not match the catalog"@)
    } else if !valid_utf8(bytes) {
        Err("language pack is not UTF-8: "@ + utf8_fault(bytes))
    } else {
        match pack_of(decode_utf8(bytes), Some(info.language)) {
            Err(e) => Err(e),
            Ok(pack) => if pack.version != info.version || pack.name != info.name {
                Err("language-pack metadata does not match the catalog"@)
            } else {
                Ok(pack)
            },
        }
    }
}

/// Accepts the bytes of a pack whose digest is known.
pub fn accept_pack(info: &LanguageInfo, digest: &[u8], bytes: Vec<u8>) -> (r: Result<
    LanguagePack,
    String,
>)
    ensures
        match r {
            Ok(pack) => accepted_pack(info@, digest@, bytes@) == Ok::<PackData, Seq<char>>(pack@),
            Err(e) => accepted_pack(info@, digest@, bytes@) == Err::<PackData, Seq<char>>(e@),
        },
{
    if bytes.len() as u64 > MAX_PACK_BYTES {
        return Err("language pack is larger than 1 MiB".to_string());
    }
    let actual = format_hex(digest);
    if !equal_ignoring_ascii_case(actual.as_str(), info.sha256.as_str()) {
        return Err("language-pack SHA-256 does not match the catalog".to_string());
    }
    let text = match text_from_utf8(bytes) {
        Ok(text) => text,
        Err(e) => return Err(with_text("language pack is not UTF-8: ", e.as_str())),
    };
    match parse_pack(text.as_str(), Some(info.language)) {
        Err(e) => Err(e),
        Ok(pack) => if pack.version != info.version || !same_text(
            pack.name.as_str(),
            info.name.as_str(),
        ) {
            Err("language-pack metadata does not match the catalog".to_string())
        } else {
            Ok(pack)
        },
    }
}

/// Checks a downloaded pack against its description in the catalog.
pub fn check_pack(info: &LanguageInfo, bytes: Vec<u8>) -> (r: Result<LanguagePack, String>)
    ensures
        match r {
            Ok(pack) => accepted_pack(info@, sha256_digest(bytes@), bytes@) == Ok::<
                PackData,
                Seq<char>,
            >(pack@),
            Err(e) => accepted_pack(info@, sha256_digest(bytes@), bytes@) == Err::<
                PackData,
                Seq<char>,
            >(e@),
        },
{
    let digest = sha256(bytes.as_slice());
    accept_pack(info, digest.as_slice(), bytes)
}

/// A pack that is accepted has the digest, the version, the name and the
/// language that the catalog lists.
pub proof fn accepted_pack_matches_the_catalog(info: InfoData, digest: Seq<u8>, bytes: Seq<u8>)
    requires
        accepted_pack(info, digest, bytes) is Ok,
    ensures
        ({
            let pack = accepted_pack(info, digest, bytes)->Ok_0;
            &&& pack.version == info.version
            &&& pack.name == info.name
            &&& pack_of(decode_utf8(bytes), Some(info.language)) == Ok::<PackData, Seq<char>>(pack)
            &&& ascii_lowered(hex_text(digest)) == ascii_lowered(info.sha256)
            &&& bytes.len() <= MAX_PACK_BYTES
        }),
{
}

// ---------------------------------------------------------------------------
// What holds of every pack
// ---------------------------------------------------------------------------

/// A value is read piece by piece: a character stands for itself, and behind a
/// backslash `n`, `r`, `t` and the backslash stand for what they do elsewhere.
/// Nothing else may stand there.
pub proof fn values_are_read_piece_by_piece(a: Seq<char>, b: Seq<char>, c: char)
    ensures
        unescaped(a) is Ok && unescaped(b) is Ok ==> unescaped(a + b) == Ok::<Seq<char>, Seq<char>>(
            unescaped(a)->Ok_0 + unescaped(b)->Ok_0,
        ),
        unescaped(seq![]) == Ok::<Seq<char>, Seq<char>>(seq![]),
        c != '\\' ==> unescaped(seq![c]) == Ok::<Seq<char>, Seq<char>>(seq![c]),
        unescaped(seq!['\\']) is Err,
        c == 'n' ==> unescaped(seq!['\\', c]) == Ok::<Seq<char>, Seq<char>>(seq!['\n']),
        c == 'r' ==> unescaped(seq!['\\', c]) == Ok::<Seq<char>, Seq<char>>(seq!['\r']),
        c == 't' ==> unescaped(seq!['\\', c]) == Ok::<Seq<char>, Seq<char>>(seq!['\t']),
        c == '\\' ==> unescaped(seq!['\\', c]) == Ok::<Seq<char>, Seq<char>>(seq!['\\']),
        c != 'n' && c != 'r' && c != 't' && c != '\\' ==> unescaped(seq!['\\', c]) is Err,
{
    let nothing = Seq::<char>::empty();
    assert(seq![c].skip(1) =~= nothing);
    assert(seq!['\\', c].skip(2) =~= nothing);
    assert(unescaped(nothing) == Ok::<Seq<char>, Seq<char>>(nothing));
    assert(seq![c] + nothing =~= seq![c]);
    assert(seq!['\n'] + nothing =~= seq!['\n']);
    assert(seq!['\r'] + nothing =~= seq!['\r']);
    assert(seq!['\t'] + nothing =~= seq!['\t']);
    assert(seq!['\\'] + nothing =~= seq!['\\']);
    if unescaped(a) is Ok && unescaped(b) is Ok {
        lemma_unescaped_concat(a, b);
    }
}

proof fn lemma_unescaped_concat(a: Seq<char>, b: Seq<char>)
    requires
        unescaped(a) is Ok,
        unescaped(b) is Ok,
    ensures
        unescaped(a + b) == Ok::<Seq<char>, Seq<char>>(unescaped(a)->Ok_0 + unescaped(b)->Ok_0),
    decreases a.len(),
{
    let all = a + b;
    let y = unescaped(b)->Ok_0;
    if a.len() == 0 {
        assert(all =~= b);
        assert(unescaped(a)->Ok_0 + y =~= y);
    } else if a[0] != '\\' {
        lemma_unescaped_concat(a.skip(1), b);
        assert(all.skip(1) =~= a.skip(1) + b);
        let x = unescaped(a.skip(1))->Ok_0;
        assert(seq![a[0]] + (x + y) =~= (seq![a[0]] + x) + y);
    } else {
        lemma_unescaped_concat(a.skip(2), b);
        assert(all[1] == a[1]);
        assert(all.skip(2) =~= a.skip(2) + b);
        let x = unescaped(a.skip(2))->Ok_0;
        let c = escape_char(a[1])->0;
        assert(seq![c] + (x + y) =~= (seq![c] + x) + y);
    }
}

proof fn lemma_plain_value(value: Seq<char>)
    requires
        !value.contains('\\'),
    ensures
        unescaped(value) == Ok::<Seq<char>, Seq<char>>(value),
    decreases value.len(),
{
    if value.len() > 0 {
        let rest = value.skip(1);
        assert forall|i: int| 0 <= i < rest.len() implies #[trigger] rest[i] != '\\' by {
            assert(value.contains(value[i + 1]));
        }
        lemma_plain_value(rest);
        assert(value.contains(value[0]));
        assert(seq![value[0]] + rest =~= value);
    } else {
        assert(value =~= seq![]);
    }
}

/// A line of a pack is a key, an equals sign and a value. Empty lines and those
/// that start with a number sign say nothing, and keys are made of letters,
/// digits, dots and underscores.
pub proof fn lines_are_keys_and_values(key: Seq<char>, value: Seq<char>, index: int)
    requires
        key.len() > 0,
        forall|i: int| 0 <= i < key.len() ==> #[trigger] key[i] != '=' && key[i] != '\r',
        key[0] != '#',
        forall|i: int|
            0 <= i < value.len() ==> #[trigger] value[i] != '\\' && !control(value[i]),
    ensures
        (forall|i: int|
            0 <= i < key.len() ==> ('a' <= #[trigger] key[i] <= 'z' || 'A' <= key[i] <= 'Z' || '0'
                <= key[i] <= '9' || key[i] == '.' || key[i] == '_')) ==> pack_line(
            key + seq!['='] + value,
            index,
        ) == PackLine::Field(key, value),
        (exists|i: int|
            0 <= i < key.len() && !('a' <= #[trigger] key[i] <= 'z' || 'A' <= key[i] <= 'Z' || '0'
                <= key[i] <= '9' || key[i] == '.' || key[i] == '_')) ==> pack_line(
            key + seq!['='] + value,
            index,
        ) is Fault,
        pack_line(key, index) is Fault,
        pack_line(seq!['#'] + value, index) == PackLine::Blank,
        pack_line(seq![], index) == PackLine::Blank,
{
    let line = key + seq!['='] + value;
    assert(line.last() != '\r') by {
        if value.len() > 0 {
            assert(line.last() == value[value.len() - 1]);
        } else {
            assert(line.last() == '=');
        }
    }
    assert(strip_end(line, '\r') == line);
    assert forall|i: int| 0 <= i < key.len() implies #[trigger] line[i] != '=' by {
        assert(line[i] == key[i]);
    }
    crate::text::lemma_find_is(line, '=', key.len() as int);
    assert(line.take(key.len() as int) =~= key);
    assert(line.skip((key.len() + 1) as int) =~= value);
    assert(line[0] == key[0]);
    lemma_plain_value(value);
    assert(!has_terminal_control(value));
    assert(key.last() == key[key.len() - 1]);
    assert(strip_end(key, '\r') == key);
    crate::text::lemma_find_is(key, '=', key.len() as int);
    let comment = seq!['#'] + value;
    assert(comment.last() == if value.len() > 0 {
        value[value.len() - 1]
    } else {
        '#'
    });
    assert(strip_end(comment, '\r') == comment);
    if exists|i: int|
        0 <= i < key.len() && !('a' <= #[trigger] key[i] <= 'z' || 'A' <= key[i] <= 'Z' || '0'
            <= key[i] <= '9' || key[i] == '.' || key[i] == '_') {
        let i = choose|i: int|
            0 <= i < key.len() && !('a' <= #[trigger] key[i] <= 'z' || 'A' <= key[i] <= 'Z' || '0'
                <= key[i] <= '9' || key[i] == '.' || key[i] == '_');
        assert(!key_char(key[i]));
        assert(!pack_key(key));
    }
}

/// A pack that is accepted holds exactly the fields of its lines, and no key
/// twice.
pub proof fn packs_hold_the_fields_of_their_lines(rows: Seq<Seq<char>>, n: nat)
    requires
        pack_fields(rows, n) is Ok,
    ensures
        forall|key: Seq<char>| #[trigger]
            pack_fields(rows, n)->Ok_0.contains_key(key) ==> exists|i: int|
                0 <= i < n && #[trigger] pack_line(rows[i], i) == PackLine::Field(
                    key,
                    pack_fields(rows, n)->Ok_0[key],
                ),
        forall|i: int|
            0 <= i < n ==> match #[trigger] pack_line(rows[i], i) {
                PackLine::Field(key, value) => pack_fields(rows, n)->Ok_0.contains_key(key)
                    && pack_fields(rows, n)->Ok_0[key] == value,
                PackLine::Blank => true,
                PackLine::Fault(_) => false,
            },
        forall|i: int, j: int|
            0 <= i < j < n && pack_line(rows[i], i) is Field && pack_line(rows[j], j) is Field ==> (
            #[trigger] pack_line(rows[i], i))->Field_0 != (#[trigger] pack_line(
                rows[j],
                j,
            ))->Field_0,
    decreases n,
{
    if n > 0 {
        let m = (n - 1) as nat;
        packs_hold_the_fields_of_their_lines(rows, m);
        let before = pack_fields(rows, m)->Ok_0;
        let after = pack_fields(rows, n)->Ok_0;
        assert(pack_line(rows[n - 1], n - 1) !is Fault);
        assert forall|key: Seq<char>| #[trigger] after.contains_key(key) implies exists|i: int|
            0 <= i < n && #[trigger] pack_line(rows[i], i) == PackLine::Field(key, after[key]) by {
            if before.contains_key(key) {
                let i = choose|i: int|
                    0 <= i < m && #[trigger] pack_line(rows[i], i) == PackLine::Field(
                        key,
                        before[key],
                    );
                assert(pack_line(rows[i], i) == PackLine::Field(key, after[key]));
            } else {
                assert(pack_line(rows[n - 1], n - 1) == PackLine::Field(key, after[key]));
            }
        }
    }
}

/// Vietnamese is chosen by `vi`, in either case, and English by anything else.
pub proof fn vietnamese_is_named_by_two_letters(text: Seq<char>)
    ensures
        named_language(text) == Language::Vietnamese <==> trimmed(text).len() == 2 && (trimmed(
            text,
        )[0] == 'v' || trimmed(text)[0] == 'V') && (trimmed(text)[1] == 'i' || trimmed(text)[1]
            == 'I'),
        named_language(text) == Language::English || named_language(text) == Language::Vietnamese,
{
    reveal_strlit("vi");
    let t = trimmed(text);
    assert(ascii_lowered(t).len() == t.len());
    if ascii_lowered(t) == "vi"@ {
        assert(ascii_lowered(t)[0] == 'v' && ascii_lowered(t)[1] == 'i');
    }
    if t.len() == 2 && (t[0] == 'v' || t[0] == 'V') && (t[1] == 'i' || t[1] == 'I') {
        assert(ascii_lowered(t) =~= "vi"@);
    }
}

/// What is said in a language: its own message, else the English one, else the
/// key.
pub proof fn missing_messages_are_english(t: Translation, key: Seq<char>)
    ensures
        t.language == Language::English && t.english@.messages.contains_key(key) ==> t.text(key)
            == t.english@.messages[key],
        t.language == Language::Vietnamese && t.vietnamese is Some
            && t.vietnamese->0@.messages.contains_key(key) ==> t.text(key)
            == t.vietnamese->0@.messages[key],
        t.language == Language::Vietnamese && (t.vietnamese is None
            || !t.vietnamese->0@.messages.contains_key(key)) && t.english@.messages.contains_key(key)
            ==> t.text(key) == t.english@.messages[key],
        !t.english@.messages.contains_key(key) && (t.vietnamese is None
            || !t.vietnamese->0@.messages.contains_key(key)) ==> t.text(key) == key,
{
}

/// A catalog that is accepted lists the languages of its entries that are known,
/// each by what its entry says.
pub proof fn catalogs_list_their_known_entries(entries: Seq<JsonData>, n: nat, i: int)
    requires
        catalog_infos(entries, n) is Ok,
        0 <= i < n,
    ensures
        match entry_language(entries[i]) {
            Some(language) => entry_info(entries[i], language) matches Ok(info)
                && catalog_infos(entries, n)->Ok_0.contains(info),
            None => true,
        },
    decreases n,
{
    let found = catalog_infos(entries, n)->Ok_0;
    if i < n - 1 {
        catalogs_list_their_known_entries(entries, (n - 1) as nat, i);
        let before = catalog_infos(entries, (n - 1) as nat)->Ok_0;
        if let Some(language) = entry_language(entries[i]) {
            let info = entry_info(entries[i], language)->Ok_0;
            let k = choose|k: int| 0 <= k < before.len() && before[k] == info;
            assert(found[k] == info);
        }
    } else if let Some(language) = entry_language(entries[i]) {
        assert(found[found.len() - 1] == entry_info(entries[i], language)->Ok_0);
    }
}

/// An entry that is accepted gives its name, version, file and digest as they are
/// written, the digest in lower case.
pub proof fn entries_give_what_they_say(entry: JsonData, language: Language)
    requires
        entry_info(entry, language) is Ok,
    ensures
        ({
            let info = entry_info(entry, language)->Ok_0;
            &&& info.language == language
            &&& text_member(entry, "name"@) == Some(info.name) && info.name.len() > 0
            &&& whole_member(entry, "version"@) == Some(info.version)
            &&& text_member(entry, "file"@) == Some(info.file)
            &&& language == Language::English ==> info.file == "en.lang"@
            &&& language == Language::Vietnamese ==> info.file == "vi.lang"@
            &&& text_member(entry, "sha256"@) matches Some(digest)
            &&& digest.len() == 64
            &&& info.sha256 == ascii_lowered(digest)
            &&& all_hex_digits(info.sha256)
        }),
{
}

/// A pack of more than a mebibyte is refused, and so is one whose digest is not
/// the one that is listed.
pub proof fn changed_packs_are_refused(info: InfoData, digest: Seq<u8>, bytes: Seq<u8>)
    ensures
        bytes.len() > 1024 * 1024 ==> accepted_pack(info, digest, bytes) is Err,
        hex_text(digest) != info.sha256 && ascii_lowered(info.sha256) == info.sha256
            ==> accepted_pack(info, digest, bytes) is Err,
        bytes.len() <= 1024 * 1024 && hex_text(digest) == info.sha256 && valid_utf8(bytes) ==> (
        accepted_pack(info, digest, bytes) is Ok <==> (pack_of(
            decode_utf8(bytes),
            Some(info.language),
        ) matches Ok(pack) && pack.version == info.version && pack.name == info.name)),
{
    let text = hex_text(digest);
    crate::number::lemma_hex_text_chars(digest);
    assert(ascii_lowered(text) =~= text) by {
        assert forall|i: int| 0 <= i < text.len() implies #[trigger] ascii_lowered(text)[i]
            == text[i] by {
            lemma_hex_char_lower(digest, i);
        }
    }
}

proof fn lemma_hex_char_lower(bytes: Seq<u8>, i: int)
    requires
        0 <= i < hex_text(bytes).len(),
    ensures
        !('A' <= hex_text(bytes)[i] <= 'Z'),
{
    let b = bytes[i / 2] as int;
    assert(0 <= b / 16 < 16 && 0 <= b % 16 < 16);
}

} // verus!
