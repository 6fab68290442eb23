use casfetch::ribbit::{parse_cdns, parse_summary, parse_versions, response_text, CDNsEntry, Ribbit, RibbitError, Summary, SummaryEntry, CDNs};
use sha2::Digest;

fn v(items: &[&str]) -> Vec<String> {
    items.iter().map(|s| s.to_string()).collect()
}

#[test]
fn summary() {
    let input = "Product!STRING:0|Seqn!DEC:4|Flags!STRING:0\n## seqn = 42\nmoo|123|\nmoo|456|cdn\ncow|789|\n";
    let expected = Summary {
        seqn: 42,
        entries: vec![
            ("moo".to_string(), SummaryEntry { seqn: Some(123), cdn: Some(456), bgdl: None }),
            ("cow".to_string(), SummaryEntry { seqn: Some(789), cdn: None, bgdl: None }),
        ],
    };
    assert_eq!(Some(expected), parse_summary(input));
}

#[test]
fn strs() {
    assert_eq!(("".to_string(), v(&["a", "b", "c"])), casfetch::ribbit::strs("a b c"));
    assert_eq!(("|de".to_string(), v(&["a", "b", "c"])), casfetch::ribbit::strs("a b c|de"));
}

#[test]
fn cdns() {
    let input = "FooBarBaz\n## seqn = 42\nus|a/b|foo.com bar.com|http://foo.com/?baz http://bar.com/?quux|c/d/e\neu|v/w|bar.com foo.com|http://bar.com/?quux http://foo.com/?baz|x/y/z\n";
    let expected = CDNs {
        seqn: 42,
        entries: vec![
            CDNsEntry {
                region: "us".to_string(),
                path: "a/b".to_string(),
                hosts: v(&["foo.com", "bar.com"]),
                servers: v(&["http://foo.com/?baz", "http://bar.com/?quux"]),
                config_path: "c/d/e".to_string(),
            },
            CDNsEntry {
                region: "eu".to_string(),
                path: "v/w".to_string(),
                hosts: v(&["bar.com", "foo.com"]),
                servers: v(&["http://bar.com/?quux", "http://foo.com/?baz"]),
                config_path: "x/y/z".to_string(),
            },
        ],
    };
    assert_eq!(Some(expected), parse_cdns(input));
}

#[test]
fn summary_rejects_trailing_garbage_and_big_numbers() {
    let head = "Product!STRING:0|Seqn!DEC:4|Flags!STRING:0\n## seqn = 1\n";
    assert!(parse_summary(&format!("{}moo|1|xyz\n", head)).is_none());
    assert!(parse_summary(&format!("{}moo|4294967296|\n", head)).is_none());
    assert!(parse_summary(&format!("{}moo|1|", head)).is_none());
    let s = parse_summary(&format!("{}moo|4294967295|bgdl\n", head)).unwrap();
    assert_eq!(s.entries[0].1.bgdl, Some(u32::MAX));
    assert!(parse_summary("Product|Seqn\n## seqn = 1\n").is_none());
}

#[test]
fn versions_rows_by_region() {
    let input = "Region!STRING:0|BuildConfig!HEX:16|CDNConfig!HEX:16|KeyRing!HEX:16|BuildId!DEC:4|VersionsName!String:0|ProductConfig!HEX:16\n## seqn = 7\nus|0a|0b||12|1.2.3|ff\neu|01|02|03|5|x|\nus|0c|0d||13|1.2.4|\n";
    let got = parse_versions(input).unwrap();
    assert_eq!(got.seqn, 7);
    assert_eq!(got.entries.len(), 2);
    assert_eq!(got.entries[0].region, "us");
    assert_eq!(got.entries[0].build_config, 0x0c);
    assert_eq!(got.entries[0].cdn_config, 0x0d);
    assert_eq!(got.entries[0].key_config, None);
    assert_eq!(got.entries[0].build_id, 13);
    assert_eq!(got.entries[0].name, "1.2.4");
    assert_eq!(got.entries[0].product_config, None);
    assert_eq!(got.entries[1].key_config, Some(3));
    assert!(parse_versions("no newline").is_none());
}

fn with_checksum(message: &[u8]) -> Vec<u8> {
    let mut out = message.to_vec();
    out.extend_from_slice(b"Checksum: ");
    out.extend_from_slice(hex::encode(sha2::Sha256::digest(message)).as_bytes());
    out.extend_from_slice(b"\r\n");
    out
}

fn mime(body: &str) -> Vec<u8> {
    format!(
        "Content-Type: multipart/alternative; boundary=\"B\"\r\n\r\n--B\r\nContent-Type: text/plain\r\n\r\n{}\r\n--B--\r\n",
        body
    )
    .into_bytes()
}

#[test]
fn response_trailer_checks() {
    assert_eq!(response_text(b"short"), Err(RibbitError::Truncated));
    let mut bad = vec![b'x'; 80];
    bad[4] = b'C';
    assert_eq!(response_text(&bad), Err(RibbitError::MissingChecksum));
    let mut content = with_checksum(&mime("text"));
    let n = content.len();
    content[n - 3] = if content[n - 3] == b'0' { b'1' } else { b'0' };
    assert_eq!(response_text(&content), Err(RibbitError::BadChecksum));
}

#[test]
fn summary_response_end_to_end() {
    let table = "Product!STRING:0|Seqn!DEC:4|Flags!STRING:0\n## seqn = 3\nwow|9|\n";
    let content = with_checksum(&mime(table));
    let text = response_text(&content).unwrap();
    assert!(text.starts_with("Product!STRING:0|Seqn!DEC:4|Flags!STRING:0\n"));
    let mut ribbit = Ribbit::new().unwrap();
    let s = ribbit.summary(&content).unwrap();
    assert_eq!(s.seqn, 3);
    assert_eq!(s.entries, vec![("wow".to_string(), SummaryEntry { seqn: Some(9), cdn: None, bgdl: None })]);
}

#[test]
fn command_lines() {
    assert_eq!(Ribbit::summary_command(), "v1/summary\r\n");
    assert_eq!(Ribbit::versions_command("wow"), "v1/products/wow/versions\r\n");
    assert_eq!(Ribbit::cdns_command("wow"), "v1/products/wow/cdns\r\n");
}
