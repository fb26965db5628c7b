use music_terminal_player::language::{
    accept_language_catalog, check_pack, english_pack, installed_language_version, installed_pack,
    language_path, language_setting, load_language, parse_language, parse_language_catalog,
    parse_pack, parse_pack_value, plan_install, read_language_catalog, tr, validate_language_pack,
    validate_pack_file_name, Language, LanguageInfo, MAX_PACK_BYTES,
};
use music_terminal_player::queue::LoopMode;

const PACK: &str =
    "language.code=vi\nlanguage.name=Tiếng Việt\nlanguage.version=3\nmsg.off=tắt\n";

/// The SHA-256 of the pack.
const PACK_SHA256: &str = "2feacc0ac364acb11da2ecc04e81fceae4f47ce85e94e7de7eb4fe7066fae3fe";

fn info() -> LanguageInfo {
    LanguageInfo {
        language: Language::Vietnamese,
        name: "Tiếng Việt".to_string(),
        version: 3,
        file: "vi.lang".to_string(),
        sha256: PACK_SHA256.to_uppercase(),
    }
}

#[test]
fn languages_have_codes_labels_and_files() {
    assert_eq!(Language::English.code(), "en");
    assert_eq!(Language::Vietnamese.label(), "Tiếng Việt");
    assert_eq!(Language::Vietnamese.file_name(), "vi.lang");
    assert_eq!(
        language_path(Language::Vietnamese),
        ".music-terminal/languages/vi.lang"
    );
    assert_eq!(parse_language(" VI \n"), Language::Vietnamese);
    assert_eq!(parse_language("de"), Language::English);
    for language in [Language::English, Language::Vietnamese] {
        assert_eq!(parse_language(&language_setting(language)), language);
    }
}

#[test]
fn pack_values_replace_escapes_and_refuse_control_characters() {
    assert_eq!(
        parse_pack_value(r"a\tb\\\n\r").unwrap(),
        "a\tb\\\n\r"
    );
    assert_eq!(
        parse_pack_value("end\\").unwrap_err(),
        "language-pack value ends with an escape"
    );
    assert_eq!(
        parse_pack_value(r"\x").unwrap_err(),
        r"unsupported language-pack escape: \x"
    );
    assert_eq!(
        parse_pack_value("\u{1b}[2J").unwrap_err(),
        "language-pack value contains a terminal control character"
    );
    assert_eq!(parse_pack_value("a\tb").unwrap(), "a\tb");
}

#[test]
fn packs_name_what_is_wrong_with_them() {
    let error = |text: &str| parse_pack(text, Some(Language::Vietnamese)).err().unwrap();
    assert_eq!(error("# note\n\nbroken"), "language-pack line 3 has no =");
    assert_eq!(error("=x"), "language-pack line 1 has an invalid key");
    assert_eq!(error("a b=x"), "language-pack line 1 has an invalid key");
    assert_eq!(
        error("a=1\na=2"),
        "language pack contains duplicate key a"
    );
    assert_eq!(error("a=\\q"), r"unsupported language-pack escape: \q");
    assert_eq!(error(""), "language pack has no language.code");
    assert_eq!(
        error("language.code=en"),
        "language pack code does not match Some(\"vi\")"
    );
    assert_eq!(
        error("language.code=vi"),
        "language pack has no language.name"
    );
    assert_eq!(
        error("language.code=vi\nlanguage.name=x"),
        "language pack has no language.version"
    );
    assert_eq!(
        error("language.code=vi\nlanguage.name=x\nlanguage.version=x"),
        "language pack has an invalid language.version: invalid digit found in string"
    );
    assert!(validate_language_pack(PACK, Language::Vietnamese).is_ok());
    assert!(validate_language_pack(PACK, Language::English).is_err());
    assert!(parse_pack(PACK, None).is_ok());
}

#[test]
fn messages_fall_back_to_english_and_then_to_their_key() {
    let english = load_language(Some("vi\n"), None);
    assert_eq!(english.language(), Language::English);
    let pack = parse_pack(PACK, Some(Language::Vietnamese)).ok();
    let mut translation = load_language(Some("vi\n"), pack);
    assert_eq!(translation.language(), Language::Vietnamese);
    assert_eq!(tr(&translation, "msg.off"), "tắt");
    assert_eq!(tr(&translation, "msg.one"), "one");
    assert_eq!(tr(&translation, "msg.unknown"), "msg.unknown");
    assert_eq!(LoopMode::Off.label(&translation), "tắt");
    assert!(translation.set_language(Language::English, None));
    assert_eq!(tr(&translation, "msg.off"), "off");
    assert!(translation.set_language(Language::Vietnamese, None));
    let mut other = load_language(None, None);
    assert!(!other.set_language(Language::Vietnamese, None));
    assert_eq!(other.language(), Language::English);
    assert_eq!(english_pack().version, 1);
}

#[test]
fn installed_packs_have_a_version_and_a_size_limit() {
    assert_eq!(
        installed_language_version(Language::English, None),
        Some(1)
    );
    assert_eq!(
        installed_language_version(Language::Vietnamese, Some(PACK)),
        Some(3)
    );
    assert_eq!(installed_language_version(Language::Vietnamese, None), None);
    assert!(installed_pack(Language::Vietnamese, MAX_PACK_BYTES, PACK).is_ok());
    assert_eq!(
        installed_pack(Language::Vietnamese, MAX_PACK_BYTES + 1, PACK)
            .err()
            .unwrap(),
        "installed language pack is larger than 1 MiB"
    );
}

fn catalog(entries: &str) -> String {
    format!("{{\"format\":1,\"languages\":[{entries}]}}")
}

fn catalog_entry(code: &str, file: &str, sha256: &str) -> String {
    format!(
        "{{\"code\":\"{code}\",\"name\":\"Name\",\"version\":2,\"file\":\"{file}\",\"sha256\":\"{sha256}\"}}"
    )
}

#[test]
fn catalogs_list_known_languages() {
    let entries = format!(
        "{},{{\"code\":\"xx\"}},{}",
        catalog_entry("vi", "vi.lang", &PACK_SHA256.to_uppercase()),
        catalog_entry("en", "en.lang", PACK_SHA256)
    );
    let found = parse_language_catalog(&catalog(&entries)).unwrap();
    assert_eq!(found.len(), 2);
    assert_eq!(found[0].language, Language::Vietnamese);
    assert_eq!(found[0].version, 2);
    assert_eq!(found[0].sha256, PACK_SHA256);
    assert_eq!(
        accept_language_catalog(catalog(&entries).into_bytes()).unwrap(),
        found
    );
}

#[test]
fn catalogs_name_what_is_wrong_with_them() {
    let error = |text: &str| parse_language_catalog(text).err().unwrap();
    let cause = serde_json::from_str::<serde_json::Value>("not json")
        .unwrap_err()
        .to_string();
    assert!(cause.contains("line 1"));
    assert_eq!(
        error("not json"),
        format!("invalid language catalog JSON: {cause}")
    );
    assert_eq!(
        read_language_catalog(Err("no text")).err().unwrap(),
        "invalid language catalog JSON: no text"
    );
    assert_eq!(error("{}"), "unsupported language catalog format");
    assert_eq!(
        error("{\"format\":1.0}"),
        "unsupported language catalog format"
    );
    assert_eq!(
        error("{\"format\":1}"),
        "language catalog has no languages array"
    );
    let vi = catalog_entry("vi", "vi.lang", PACK_SHA256);
    assert_eq!(
        error(&catalog(&format!("{vi},{vi}"))),
        "language catalog contains duplicate code vi"
    );
    assert_eq!(
        error(&catalog("{\"code\":\"vi\"}")),
        "language catalog entry has no name"
    );
    assert_eq!(
        error(&catalog("{\"code\":\"vi\",\"name\":\"x\",\"version\":-1}")),
        "language catalog entry has no valid version"
    );
    assert_eq!(
        error(&catalog("{\"code\":\"vi\",\"name\":\"x\",\"version\":1,\"file\":\"\"}")),
        "language catalog entry has no file"
    );
    assert_eq!(
        error(&catalog(&catalog_entry("vi", "../vi.lang", PACK_SHA256))),
        "invalid language-pack file name"
    );
    assert_eq!(
        error(&catalog(&catalog_entry("vi", "en.lang", PACK_SHA256))),
        "language catalog file does not match code vi"
    );
    assert_eq!(
        error(&catalog(&catalog_entry("vi", "vi.lang", ""))),
        "language catalog entry has no sha256"
    );
    assert_eq!(
        error(&catalog(&catalog_entry("vi", "vi.lang", "12"))),
        "language catalog entry has an invalid SHA-256"
    );
    assert_eq!(
        accept_language_catalog(vec![0xff]).err().unwrap(),
        "language catalog is not UTF-8: invalid utf-8 sequence of 1 bytes from index 0"
    );
    assert_eq!(
        accept_language_catalog(vec![b' '; 1_048_577]).err().unwrap(),
        "language catalog is larger than 1 MiB"
    );
}

#[test]
fn pack_file_names_have_no_directory() {
    assert!(validate_pack_file_name("vi.lang").is_ok());
    assert!(validate_pack_file_name("vi.lan").is_err());
    assert!(validate_pack_file_name("a/vi.lang").is_err());
    assert!(validate_pack_file_name(".lang").is_err());
}

#[test]
fn packs_are_installed_only_where_they_match_the_catalog() {
    let plan = plan_install(&info()).unwrap().unwrap();
    assert!(plan.url.ends_with("/main/languages/vi.lang"));
    assert_eq!(
        plan.temporary,
        ".music-terminal/languages/vi.lang.download"
    );
    let mut english = info();
    english.language = Language::English;
    assert!(plan_install(&english).unwrap().is_none());
    let mut named = info();
    named.file = "x/vi.lang".to_string();
    assert!(plan_install(&named).is_err());

    assert_eq!(
        check_pack(&info(), PACK.as_bytes().to_vec()).ok().unwrap().version,
        3
    );
    let error = |info: &LanguageInfo, bytes: &[u8]| check_pack(info, bytes.to_vec()).err().unwrap();
    assert_eq!(
        error(&info(), b"other"),
        "language-pack SHA-256 does not match the catalog"
    );
    let mut newer = info();
    newer.version = 4;
    assert_eq!(
        error(&newer, PACK.as_bytes()),
        "language-pack metadata does not match the catalog"
    );
    let mut binary = info();
    // The SHA-256 of the single byte 255.
    binary.sha256 = "a8100ae6aa1940d0b663bb31cd466142ebbdbd5187131b92d93818987832eb89".to_string();
    assert_eq!(
        error(&binary, &[255]),
        "language pack is not UTF-8: invalid utf-8 sequence of 1 bytes from index 0"
    );
    assert_eq!(
        error(&info(), &vec![b' '; 1_048_577]),
        "language pack is larger than 1 MiB"
    );
}
