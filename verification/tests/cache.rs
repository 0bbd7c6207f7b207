use jakarta::cache::{Entry, EntryType, Lookup, ResolutionCache, UnknownEntryType};

fn fields(pairs: &[(&str, &str)]) -> Option<Vec<(String, String)>> {
    Some(pairs.iter().map(|(k, v)| (k.to_string(), v.to_string())).collect())
}

#[test]
fn entry_type_is_read_from_its_name() {
    assert_eq!(EntryType::from_str("kv1"), Ok(EntryType::Kv1));
    assert_eq!(EntryType::from_str("kv2"), Ok(EntryType::Kv2));
    assert_eq!(EntryType::from_str("db"), Ok(EntryType::Db));
    assert_eq!(EntryType::from_str("env"), Ok(EntryType::Env));
    assert_eq!(EntryType::from_str("sh"), Ok(EntryType::Sh));
}

#[test]
fn unknown_entry_type_is_an_error() {
    assert_eq!(
        EntryType::from_str("vault"),
        Err(UnknownEntryType { name: "vault".to_owned() })
    );
    assert!(EntryType::from_str("").is_err());
    assert!(EntryType::from_str("ENV").is_err());
    assert!(EntryType::from_str("env ").is_err());
    assert_eq!(
        EntryType::from_str("vault").unwrap_err().message(),
        "Could not match EntryType from: vault"
    );
}

#[test]
fn secret_yields_its_fields() {
    for entry in [
        Entry::Kv1(fields(&[("user", "u"), ("pass", "p"), ("user", "second")])),
        Entry::Kv2(fields(&[("user", "u"), ("pass", "p"), ("user", "second")])),
    ] {
        assert_eq!(entry.value("user", None), "u");
        assert_eq!(entry.value("pass", Some("d")), "p");
        assert_eq!(entry.value("other", Some("d")), "d");
        assert_eq!(entry.value("other", None), "");
        assert_eq!(entry.value("", Some("d")), "d");
        assert!(!entry.is_failed());
    }
}

#[test]
fn failed_entry_yields_the_default() {
    for entry in [
        Entry::Kv1(None),
        Entry::Kv2(None),
        Entry::Db(None),
        Entry::Env(None),
        Entry::Sh(None),
    ] {
        assert_eq!(entry.value("user", Some("d")), "d");
        assert_eq!(entry.value("username", Some("other")), "other");
        assert_eq!(entry.value("user", None), "");
        assert_eq!(entry.value("", None), "");
        assert!(entry.is_failed());
    }
}

#[test]
fn credentials_yield_user_name_and_password() {
    let entry = Entry::Db(Some(("admin".to_owned(), "s3cret".to_owned())));
    assert_eq!(entry.value("username", None), "admin");
    assert_eq!(entry.value("password", Some("d")), "s3cret");
    assert_eq!(entry.value("other", Some("d")), "d");
    assert_eq!(entry.value("", None), "");
    assert!(!entry.is_failed());
}

#[test]
fn variable_and_output_yield_themselves() {
    assert_eq!(Entry::Env(Some("v".to_owned())).value("", Some("d")), "v");
    assert_eq!(Entry::Env(Some("v".to_owned())).value("field", None), "v");
    assert_eq!(Entry::Env(None).value("", Some("d")), "d");
    assert_eq!(Entry::Env(None).value("", None), "");
    assert_eq!(Entry::Sh(Some("out".to_owned())).value("", Some("d")), "out");
    assert_eq!(Entry::Sh(None).value("", Some("d")), "d");
    assert_eq!(Entry::Sh(None).value("", None), "");
    assert!(Entry::Env(None).is_failed());
    assert!(Entry::Sh(None).is_failed());
    assert!(!Entry::Sh(Some("".to_owned())).is_failed());
}

#[test]
fn entry_from_env() {
    assert_eq!(Entry::from_env(Some("v".to_owned())), Entry::Env(Some("v".to_owned())));
    assert_eq!(Entry::from_env(Some("".to_owned())), Entry::Env(Some("".to_owned())));
    assert_eq!(Entry::from_env(None), Entry::Env(None));
}

#[test]
fn entry_from_sh() {
    assert_eq!(Entry::from_sh(Some(b"out".to_vec())), Entry::Sh(Some("out".to_owned())));
    assert_eq!(Entry::from_sh(Some(Vec::new())), Entry::Sh(Some("".to_owned())));
    assert_eq!(Entry::from_sh(Some(vec![0xc3])), Entry::Sh(None));
    assert_eq!(Entry::from_sh(None), Entry::Sh(None));
}

#[test]
fn each_placeholder_falls_back_to_its_own_default() {
    let mut cache = ResolutionCache::new(true);
    let unset = Entry::from_env(None);
    assert_eq!(unset.value("", Some("x")), "x");
    cache.store("env".to_owned(), "A".to_owned(), unset);

    assert_eq!(cache.lookup("env", "A", "", Some("x")), Lookup::Hit("x".to_owned()));
    assert_eq!(cache.lookup("env", "A", "", Some("y")), Lookup::Hit("y".to_owned()));
    assert_eq!(cache.lookup("env", "A", "", None), Lookup::Hit("".to_owned()));
}

#[test]
fn a_failed_secret_falls_back_to_the_default() {
    let mut cache = ResolutionCache::new(true);
    cache.store("db".to_owned(), "p".to_owned(), Entry::Db(None));
    cache.store("kv1".to_owned(), "p".to_owned(), Entry::Kv1(None));

    assert_eq!(cache.lookup("db", "p", "username", Some("d")), Lookup::Hit("d".to_owned()));
    assert_eq!(cache.lookup("kv1", "p", "field", Some("d")), Lookup::Hit("d".to_owned()));
}

#[test]
fn cache_starts_empty() {
    let cache = ResolutionCache::new(true);
    assert_eq!(cache.get("env", "A"), None);
    assert_eq!(cache.lookup("env", "A", "", None), Lookup::Miss(EntryType::Env));
    assert_eq!(cache.lookup("nothing", "A", "", Some("d")), Lookup::Unknown);
}

#[test]
fn cache_keeps_what_was_fetched() {
    let mut cache = ResolutionCache::new(true);
    let secret = Entry::Kv2(fields(&[("user", "u"), ("pass", "p")]));
    cache.store("kv2".to_owned(), "a/b".to_owned(), secret.clone());

    assert_eq!(cache.get("kv2", "a/b"), Some(&secret));
    assert_eq!(cache.get("kv2", "a/c"), None);
    assert_eq!(cache.get("kv1", "a/b"), None);
    assert_eq!(cache.lookup("kv2", "a/b", "user", None), Lookup::Hit("u".to_owned()));
    assert_eq!(cache.lookup("kv2", "a/b", "pass", None), Lookup::Hit("p".to_owned()));
    assert_eq!(cache.lookup("kv2", "a/b", "none", Some("d")), Lookup::Hit("d".to_owned()));
    assert_eq!(cache.lookup("kv2", "a/c", "user", None), Lookup::Miss(EntryType::Kv2));
}

#[test]
fn cache_replaces_an_entry() {
    let mut cache = ResolutionCache::new(true);
    cache.store("env".to_owned(), "A".to_owned(), Entry::Env(Some("1".to_owned())));
    cache.store("env".to_owned(), "B".to_owned(), Entry::Env(Some("b".to_owned())));
    cache.store("env".to_owned(), "A".to_owned(), Entry::Env(Some("2".to_owned())));

    assert_eq!(cache.lookup("env", "A", "", None), Lookup::Hit("2".to_owned()));
    assert_eq!(cache.lookup("env", "B", "", None), Lookup::Hit("b".to_owned()));
}

#[test]
fn cache_keeps_failures_where_it_is_told_to() {
    let mut cache = ResolutionCache::new(true);
    cache.store("db".to_owned(), "role".to_owned(), Entry::Db(None));

    assert_eq!(cache.get("db", "role"), Some(&Entry::Db(None)));
    assert_eq!(cache.lookup("db", "role", "username", Some("d")), Lookup::Hit("d".to_owned()));
    assert_eq!(cache.lookup("db", "role", "username", None), Lookup::Hit("".to_owned()));
}

#[test]
fn cache_drops_failures_where_it_is_told_to() {
    let mut cache = ResolutionCache::new(false);
    cache.store("db".to_owned(), "role".to_owned(), Entry::Db(None));
    cache.store("env".to_owned(), "A".to_owned(), Entry::Env(Some("1".to_owned())));

    assert_eq!(cache.get("db", "role"), None);
    assert_eq!(cache.lookup("db", "role", "username", None), Lookup::Miss(EntryType::Db));
    assert_eq!(cache.lookup("env", "A", "", None), Lookup::Hit("1".to_owned()));

    cache.store("env".to_owned(), "A".to_owned(), Entry::Env(None));
    assert_eq!(cache.lookup("env", "A", "", None), Lookup::Hit("1".to_owned()));
}

#[test]
fn cache_is_cleared() {
    let mut cache = ResolutionCache::new(true);
    cache.store("env".to_owned(), "A".to_owned(), Entry::Env(Some("1".to_owned())));
    cache.clear();

    assert_eq!(cache.get("env", "A"), None);
}
