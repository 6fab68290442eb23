use std::collections::HashMap;

use casfetch::info::{cdn_prefixes, parse_build_config, parse_config, parse_hash, parse_info, version_configs, ConfigError, Fields};
use casfetch::keys::{ContentKey, EncodingKey};
use casfetch::paths::{attempt_url, cdn_path, hex32, normalize_path};

fn as_map(f: &Fields) -> HashMap<String, String> {
    let mut m = HashMap::new();
    for (k, v) in &f.pairs {
        m.insert(k.clone(), v.clone());
    }
    m
}

fn map_of(pairs: &[(&str, &str)]) -> HashMap<String, String> {
    pairs.iter().map(|(k, v)| (k.to_string(), v.to_string())).collect()
}

#[test]
fn test_parse_info() {
    let tests: Vec<(&str, &str, Vec<HashMap<String, String>>)> = vec![
        ("empty string", "", vec![]),
        ("space", " ", vec![]),
        ("one field", "moo\n\ncow", vec![map_of(&[("moo", "cow")])]),
        (
            "several fields",
            "f1!x|f2!y\n\nv11|v12\nv21|v22",
            vec![map_of(&[("f1", "v11"), ("f2", "v12")]), map_of(&[("f1", "v21"), ("f2", "v22")])],
        ),
    ];
    for (name, input, output) in tests {
        let got: Vec<HashMap<String, String>> = parse_info(input).iter().map(as_map).collect();
        assert_eq!(got, output, "{}", name);
    }
}

#[test]
fn test_parse_config() {
    let tests: Vec<(&str, &str, HashMap<String, String>)> = vec![
        ("empty string", "", map_of(&[])),
        ("space", " ", map_of(&[])),
        ("one field", "foo\n\nbar = baz\nx=y", map_of(&[("bar", "baz")])),
    ];
    for (name, input, output) in tests {
        assert_eq!(as_map(&parse_config(input)), output, "{}", name);
    }
}

#[test]
fn test_normalize_path() {
    let tests = [("empty string", "", "", ""), ("no dir", "a", "b", "b"), ("same dir", "dir\\a", "b", "dir\\b")];
    for (name, in_base, in_file, output) in tests {
        assert_eq!(normalize_path(in_base, in_file), output, "{}", name);
    }
}

#[test]
fn info_table_with_schema_tags() {
    let records = parse_info("f1!STRING:0|f2!DEC:4\n\nv11|v12\nv21|v22");
    assert_eq!(records.len(), 2);
    assert_eq!(as_map(&records[0]), map_of(&[("f1", "v11"), ("f2", "v12")]));
    assert_eq!(as_map(&records[1]), map_of(&[("f1", "v21"), ("f2", "v22")]));
    assert!(parse_info("").is_empty());
}

#[test]
fn info_table_rendered_text_reads_back() {
    let text = "a|b\n\n1|2\n3|\n";
    let records = parse_info(text);
    assert_eq!(records.len(), 2);
    assert_eq!(records[0].pairs, vec![("a".to_string(), "1".to_string()), ("b".to_string(), "2".to_string())]);
    assert_eq!(records[1].pairs, vec![("a".to_string(), "3".to_string()), ("b".to_string(), String::new())]);
}

#[test]
fn info_row_shorter_than_header_pairs_what_it_has() {
    let records = parse_info("a|b|c\n\nx|y\r\n");
    assert_eq!(records[0].pairs, vec![("a".to_string(), "x".to_string()), ("b".to_string(), "y".to_string())]);
}

#[test]
fn config_later_field_wins() {
    let c = parse_config("k = 1\r\nk = 2\nother = a = b\n");
    assert_eq!(c.get("k").map(|s| s.as_str()), Some("2"));
    assert_eq!(c.get("other").map(|s| s.as_str()), Some("a = b"));
    assert_eq!(c.get("missing"), None);
}

#[test]
fn hash_parsing() {
    assert_eq!(parse_hash("ff"), Ok(255));
    assert_eq!(parse_hash("+0A"), Ok(10));
    assert_eq!(parse_hash("0123456789abcdefABCDEF0123456789"), Ok(0x0123456789abcdefabcdef0123456789));
    assert_eq!(parse_hash(""), Err(ConfigError::BadHash));
    assert_eq!(parse_hash("+"), Err(ConfigError::BadHash));
    assert_eq!(parse_hash("xyz"), Err(ConfigError::BadHash));
    assert_eq!(parse_hash("-1"), Err(ConfigError::BadHash));
    assert_eq!(parse_hash("1ffffffffffffffffffffffffffffffff"), Err(ConfigError::BadHash));
    assert_eq!(parse_hash("ffffffffffffffffffffffffffffffff"), Ok(u128::MAX));
}

#[test]
fn build_config_reads_second_encoding_token() {
    let c = parse_config("root = 0a\nencoding = 01 02\n");
    let b = parse_build_config(&c).unwrap();
    assert_eq!(b.root, ContentKey(10));
    assert_eq!(b.encoding, EncodingKey(2));
    assert_eq!(parse_build_config(&parse_config("encoding = 1 2\n")), Err(ConfigError::MissingRoot));
    assert_eq!(parse_build_config(&parse_config("root = 1\n")), Err(ConfigError::MissingEncoding));
    assert_eq!(parse_build_config(&parse_config("root = 1\nencoding = 1\n")), Err(ConfigError::MissingEncodingKey));
    assert_eq!(parse_build_config(&parse_config("root = zz\nencoding = 1 2\n")), Err(ConfigError::BadHash));
}

#[test]
fn versions_table_gives_us_configs() {
    let info = "Region!STRING:0|BuildConfig!HEX:16|CDNConfig!HEX:16\n## seqn = 1\neu|01|02\nus|0a|0b\n";
    assert_eq!(version_configs(info), Ok((10, 11)));
    assert_eq!(version_configs("Region!STRING:0\n\neu\n"), Err(ConfigError::MissingVersion));
    assert_eq!(version_configs("Region|CDNConfig\n\nus|1\n"), Err(ConfigError::MissingBuildConfig));
}

#[test]
fn cdn_table_gives_prefixes() {
    let info = "Name!STRING:0|Path!STRING:0|Hosts!STRING:0\n## seqn = 1\nus|tpr/x|a.com b.net\n";
    assert_eq!(
        cdn_prefixes(info),
        Ok(vec!["http://a.com/tpr/x".to_string(), "http://b.net/tpr/x".to_string()])
    );
    assert_eq!(cdn_prefixes("Name|Path\n\nus|p\n"), Err(ConfigError::MissingHosts));
    assert_eq!(cdn_prefixes("Name|Hosts\n\nus|h\n"), Err(ConfigError::MissingPath));
    assert_eq!(cdn_prefixes("Name\n\neu\n"), Err(ConfigError::MissingCdn));
}

#[test]
fn path_normalization_climbs_out() {
    assert_eq!(normalize_path("Interface\\FrameXML\\FrameXML.toc", "..\\Foo\\Bar.xml"), "Interface\\Foo\\Bar.xml");
    assert_eq!(normalize_path("a/b/c.toc", "d/e.lua"), "a\\b\\d\\e.lua");
    assert_eq!(normalize_path("x.toc", "..\\..\\y"), "y");
}

#[test]
fn cdn_object_paths() {
    let h = 0x0123456789abcdef0011223344556677u128;
    assert_eq!(hex32(h), "0123456789abcdef0011223344556677");
    assert_eq!(hex32(1), "00000000000000000000000000000001");
    assert_eq!(cdn_path("data", h, None), "data/01/23/0123456789abcdef0011223344556677");
    assert_eq!(cdn_path("data", h, Some(".index")), "data/01/23/0123456789abcdef0011223344556677.index");
}

#[test]
fn attempts_cycle_hosts_for_nine_rounds() {
    let p = vec!["http://a/x".to_string(), "http://b/x".to_string()];
    assert_eq!(attempt_url(&p, "data/1", 0), Some("http://a/x/data/1".to_string()));
    assert_eq!(attempt_url(&p, "data/1", 1), Some("http://b/x/data/1".to_string()));
    assert_eq!(attempt_url(&p, "data/1", 2), Some("http://a/x/data/1".to_string()));
    assert_eq!(attempt_url(&p, "data/1", 17), Some("http://b/x/data/1".to_string()));
    assert_eq!(attempt_url(&p, "data/1", 18), None);
    assert_eq!(attempt_url(&Vec::new(), "data/1", 0), None);
}
