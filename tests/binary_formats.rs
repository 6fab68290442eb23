use casfetch::archive::{parse_index, IndexError};
use casfetch::blte::{parse, BlteError};
use casfetch::encoding::{self, EncodingError};
use casfetch::hashing::{md5hash, name_hash};
use casfetch::keys::{ArchiveKey, ContentKey, EncodingKey, FileDataID, LookupError};
use casfetch::resolver::{decode_content, fetch_range, FetchError, Locator, Resolver};
use casfetch::walker::FileNames;
use casfetch::root;
use casfetch::wdc::WdcError;

fn be32(v: u32) -> [u8; 4] {
    v.to_be_bytes()
}

fn literal_blte(payload: &[u8]) -> Vec<u8> {
    let mut d = b"BLTE".to_vec();
    d.extend_from_slice(&[0, 0, 0, 0]);
    d.push(b'N');
    d.extend_from_slice(payload);
    d
}

fn framed_zlib_blte(payload: &[u8]) -> (Vec<u8>, u128) {
    let mut chunk = vec![b'Z'];
    chunk.extend_from_slice(&miniz_oxide::deflate::compress_to_vec_zlib(payload, 6));
    let mut d = b"BLTE".to_vec();
    d.extend_from_slice(&be32(0x24));
    d.push(0x0f);
    d.extend_from_slice(&[0, 0, 1]);
    d.extend_from_slice(&be32(chunk.len() as u32));
    d.extend_from_slice(&be32(payload.len() as u32));
    d.extend_from_slice(&md5hash(&chunk).to_be_bytes());
    let header_hash = md5hash(&d);
    d.extend_from_slice(&chunk);
    (d, header_hash)
}

#[test]
fn content_hash_is_big_endian_md5() {
    assert_eq!(md5hash(b""), 0xd41d8cd98f00b204e9800998ecf8427e);
    assert_eq!(md5hash(b"hello"), 0x5d41402abc4b2a76b9719d911017c592);
}

#[test]
fn blte_literal_without_framing() {
    let d = literal_blte(b"hello");
    assert_eq!(parse(md5hash(&d), &d), Ok(b"hello".to_vec()));
    assert_eq!(parse(md5hash(&d) ^ 1, &d), Err(BlteError::HeaderChecksum));
}

#[test]
fn blte_framed_zlib_single_chunk() {
    let (d, h) = framed_zlib_blte(b"hello");
    assert_eq!(parse(h, &d), Ok(b"hello".to_vec()));
}

#[test]
fn blte_trailing_bytes() {
    let (mut d, h) = framed_zlib_blte(b"hello");
    d.push(0);
    let e = parse(h, &d).unwrap_err();
    assert_eq!(e, BlteError::TrailingData);
    assert_eq!(e.message(), "trailing BLTE data");
}

#[test]
fn blte_refusals() {
    assert_eq!(parse(0, b"BLTE"), Err(BlteError::Truncated));
    let mut d = literal_blte(b"hello");
    d[0] = b'X';
    assert_eq!(parse(md5hash(&d), &d), Err(BlteError::NotBlte));
    let mut q = b"BLTE".to_vec();
    q.extend_from_slice(&[0, 0, 0, 0]);
    q.extend_from_slice(b"Qhello");
    assert_eq!(parse(md5hash(&q), &q), Err(BlteError::UnknownEncoding));
    let (mut f, _) = framed_zlib_blte(b"hello");
    f[8] = 0x10;
    assert_eq!(parse(md5hash(&f[..36]), &f), Err(BlteError::BadFlag));
    let (mut c, _) = framed_zlib_blte(b"hello");
    let last = c.len() - 1;
    c[last] ^= 0xff;
    assert_eq!(parse(md5hash(&c[..36]), &c), Err(BlteError::ChunkChecksum));
}

fn high64(x: u128) -> u64 {
    (x >> 64) as u64
}

fn index_file(entries: &[(u128, u32, u32)], num_elements: u32) -> (Vec<u8>, u128) {
    let mut block = Vec::new();
    for (k, s, o) in entries {
        block.extend_from_slice(&k.to_be_bytes());
        block.extend_from_slice(&be32(*s));
        block.extend_from_slice(&be32(*o));
    }
    block.resize(4096, 0);
    let mut toc = entries.last().unwrap().0.to_be_bytes().to_vec();
    toc.extend_from_slice(&high64(md5hash(&block)).to_be_bytes());
    let mut footer = high64(md5hash(&toc)).to_be_bytes().to_vec();
    footer.extend_from_slice(&[1, 0, 0, 4, 4, 4, 16, 8]);
    footer.extend_from_slice(&num_elements.to_le_bytes());
    let mut checked = footer[8..20].to_vec();
    checked.resize(20, 0);
    footer.extend_from_slice(&high64(md5hash(&checked)).to_be_bytes());
    let name = md5hash(&footer);
    let mut d = block;
    d.extend_from_slice(&toc);
    d.extend_from_slice(&footer);
    (d, name)
}

#[test]
fn archive_index_single_block_two_entries() {
    let (d, name) = index_file(&[(0x11, 100, 7), (0x22, 200, 9)], 2);
    let index = parse_index(name, &d).unwrap();
    assert_eq!(index.map.len(), 2);
    assert_eq!(index.get(EncodingKey(0x11)), Some((ArchiveKey(name), 100, 7)));
    assert_eq!(index.get(EncodingKey(0x22)), Some((ArchiveKey(name), 200, 9)));
    assert_eq!(index.get(EncodingKey(0x33)), None);
}

#[test]
fn archive_index_refusals() {
    let (d, name) = index_file(&[(0x11, 100, 7), (0x22, 200, 9)], 3);
    assert_eq!(parse_index(name, &d).err(), Some(IndexError::ElementCount));
    let (d, name) = index_file(&[(0x11, 1, 1), (0x11, 2, 2), (0x22, 3, 3)], 3);
    assert_eq!(parse_index(name, &d).err(), Some(IndexError::DuplicateKey));
    let (d, name) = index_file(&[(0x11, 1, 1)], 1);
    assert_eq!(parse_index(name ^ 1, &d).err(), Some(IndexError::BadName));
    assert_eq!(parse_index(name, &d[1..]).err(), Some(IndexError::BadLayout));
    assert_eq!(parse_index(name, &d[..10]).err(), Some(IndexError::Truncated));
    let mut t = d.clone();
    t[100] ^= 1;
    assert_eq!(parse_index(name, &t).err(), Some(IndexError::BlockChecksum));
}

fn encoding_table(first_key: u128, ckey: u128, ekey: u128) -> Vec<u8> {
    encoding_table_with_especs(first_key, ckey, ekey, b"", b"")
}

fn encoding_table_with_especs(first_key: u128, ckey: u128, ekey: u128, especs: &[u8], tail: &[u8]) -> Vec<u8> {
    let mut page = vec![1u8, 0];
    page.extend_from_slice(&be32(5));
    page.extend_from_slice(&ckey.to_be_bytes());
    page.extend_from_slice(&ekey.to_be_bytes());
    page.resize(1024, 0);
    let mut d = b"EN".to_vec();
    d.extend_from_slice(&[1, 16, 16, 0, 1, 0, 1]);
    d.extend_from_slice(&be32(1));
    d.extend_from_slice(&be32(0));
    d.push(0);
    d.extend_from_slice(&be32(especs.len() as u32));
    d.extend_from_slice(especs);
    d.extend_from_slice(&first_key.to_be_bytes());
    d.extend_from_slice(&md5hash(&page).to_be_bytes());
    d.extend_from_slice(&page);
    d.extend_from_slice(tail);
    d
}

#[test]
fn encoding_specs_are_kept_as_text() {
    let d = encoding_table_with_especs(0xc1, 0xc1, 0xe1, b"z\0n", b"b:{*=z}");
    let enc = encoding::parse(&d).unwrap();
    assert_eq!(enc.especs(), &vec!["z".to_string(), "n".to_string()]);
    assert_eq!(enc.espec(), "b:{*=z}");
    assert_eq!(enc.c2e(ContentKey(0xc1)), Ok(EncodingKey(0xe1)));
    let plain = encoding::parse(&encoding_table(0xc1, 0xc1, 0xe1)).unwrap();
    assert_eq!(plain.especs(), &vec![String::new()]);
    let bad = encoding_table_with_especs(0xc1, 0xc1, 0xe1, &[0xff], b"");
    assert_eq!(encoding::parse(&bad).err(), Some(EncodingError::Espec));
    let bad_tail = encoding_table_with_especs(0xc1, 0xc1, 0xe1, b"", &[0xc3]);
    assert_eq!(encoding::parse(&bad_tail).err(), Some(EncodingError::Espec));
}

#[test]
fn encoding_table_maps_content_to_encoding() {
    let d = encoding_table(0xc1, 0xc1, 0xe1);
    let enc = encoding::parse(&d).unwrap();
    assert_eq!(enc.c2e(ContentKey(0xc1)), Ok(EncodingKey(0xe1)));
    assert_eq!(enc.c2e(ContentKey(0xc2)), Err(LookupError::NoContentKey(ContentKey(0xc2))));
}

#[test]
fn encoding_page_first_key_must_match() {
    let d = encoding_table(0xc9, 0xc1, 0xe1);
    assert_eq!(encoding::parse(&d).err(), Some(EncodingError::FirstKeyMismatch));
    let mut bad = encoding_table(0xc1, 0xc1, 0xe1);
    let last = bad.len() - 1;
    bad[last] = 1;
    assert_eq!(encoding::parse(&bad).err(), Some(EncodingError::PageChecksum));
    assert_eq!(encoding::parse(b"EN").err(), Some(EncodingError::Truncated));
}

fn root_variant_a(named: &str) -> Vec<u8> {
    let mut d = b"TSFM".to_vec();
    d.extend_from_slice(&3u32.to_le_bytes());
    d.extend_from_slice(&2u32.to_le_bytes());
    d.extend_from_slice(&2u32.to_le_bytes());
    d.extend_from_slice(&0u32.to_le_bytes());
    d.extend_from_slice(&0u32.to_le_bytes());
    d.extend_from_slice(&10i32.to_le_bytes());
    d.extend_from_slice(&0i32.to_le_bytes());
    d.extend_from_slice(&0xa1u128.to_be_bytes());
    d.extend_from_slice(&0xa2u128.to_be_bytes());
    d.extend_from_slice(&name_hash(named).to_le_bytes());
    d.extend_from_slice(&name_hash("other").to_le_bytes());
    d.extend_from_slice(&1u32.to_le_bytes());
    d.extend_from_slice(&0x1000_0000u32.to_le_bytes());
    d.extend_from_slice(&0u32.to_le_bytes());
    d.extend_from_slice(&5i32.to_le_bytes());
    d.extend_from_slice(&0xb1u128.to_be_bytes());
    d
}

#[test]
fn root_variant_a_with_skipped_names() {
    let r = root::parse(&root_variant_a("Interface\\A.toc")).unwrap();
    assert_eq!(r.f2c(FileDataID(10)), Ok(ContentKey(0xa1)));
    assert_eq!(r.f2c(FileDataID(11)), Ok(ContentKey(0xa2)));
    assert_eq!(r.f2c(FileDataID(5)), Ok(ContentKey(0xb1)));
    assert_eq!(r.f2c(FileDataID(6)), Err(LookupError::NoFileDataID(FileDataID(6))));
    assert_eq!(r.n2c("interface/a.toc"), Ok(ContentKey(0xa1)));
    assert_eq!(r.n2c("other"), Ok(ContentKey(0xa2)));
    assert!(r.n2c("missing").is_err());
}

#[test]
fn root_variant_b_interleaved() {
    let mut d = Vec::new();
    d.extend_from_slice(&1u32.to_le_bytes());
    d.extend_from_slice(&0u32.to_le_bytes());
    d.extend_from_slice(&0u32.to_le_bytes());
    d.extend_from_slice(&3i32.to_le_bytes());
    d.extend_from_slice(&0xc3u128.to_be_bytes());
    d.extend_from_slice(&name_hash("x").to_le_bytes());
    let r = root::parse(&d).unwrap();
    assert_eq!(r.f2c(FileDataID(3)), Ok(ContentKey(0xc3)));
    assert_eq!(r.n2c("X"), Ok(ContentKey(0xc3)));
    let mut neg = d.clone();
    neg[12..16].copy_from_slice(&(-2i32).to_le_bytes());
    assert_eq!(root::parse(&neg).err(), Some(root::RootError::BadFileId));
    assert_eq!(root::parse(&d[..20]).err(), Some(root::RootError::Truncated));
    assert_eq!(root::parse(b"ab").err(), Some(root::RootError::Empty));
}

#[test]
fn name_hash_swaps_halves() {
    let direct = hashers::jenkins::lookup3(b"INTERFACE\\FRAMEXML\\FRAMEXML.TOC");
    let swapped = ((direct & 0xffff_ffff) << 32) | (direct >> 32);
    assert_eq!(name_hash("Interface\\FrameXML\\FrameXML.toc"), swapped);
    assert_ne!(name_hash("Interface\\FrameXML\\FrameXML.toc"), direct);
}

#[test]
fn name_hash_ignores_separator_and_case() {
    assert_eq!(name_hash("Interface/FrameXML/FrameXML.toc"), name_hash("INTERFACE\\FRAMEXML\\FRAMEXML.TOC"));
    assert_eq!(name_hash("a/b"), name_hash("A\\B"));
}

fn wdc_file(magic: &[u8; 4], pad: usize) -> Vec<u8> {
    let mut d = magic.to_vec();
    d.resize(4 + pad, 0);
    let fields: [u32; 9] = [1, 1, 4, 6, 0, 0, 7, 7, 0];
    for f in fields {
        d.extend_from_slice(&f.to_le_bytes());
    }
    d.extend_from_slice(&4u16.to_le_bytes());
    d.extend_from_slice(&0u16.to_le_bytes());
    let rest: [u32; 7] = [0, 0, 0, 0, 0, 0, 1];
    for f in rest {
        d.extend_from_slice(&f.to_le_bytes());
    }
    d.extend_from_slice(&0u64.to_le_bytes());
    let section: [u32; 8] = [0, 1, 6, 0, 4, 0, 0, 0];
    for f in section {
        d.extend_from_slice(&f.to_le_bytes());
    }
    d.extend_from_slice(&4u32.to_le_bytes());
    d.extend_from_slice(b"hello\0");
    d.extend_from_slice(&7u32.to_le_bytes());
    d
}

#[test]
fn data_table_strings() {
    let m = casfetch::wdc3::strings(&wdc_file(b"WDC3", 0)).unwrap();
    assert_eq!(m.len(), 1);
    assert_eq!(m[&7], vec!["hello".to_string()]);
    let m5 = casfetch::db2::strings(&wdc_file(b"WDC5", 132)).unwrap();
    assert_eq!(m5[&7], vec!["hello".to_string()]);
    assert_eq!(casfetch::db2::strings(&wdc_file(b"WDC3", 132)).err(), Some(WdcError::Magic));
    let d = wdc_file(b"WDC3", 0);
    assert_eq!(casfetch::wdc3::strings(&d[..d.len() - 1]).err(), Some(WdcError::Parse));
    let mut f = wdc_file(b"WDC3", 0);
    f[40] = 5;
    assert_eq!(casfetch::wdc3::strings(&f).err(), Some(WdcError::Flags));
    let mut b = wdc_file(b"WDC3", 0);
    let at = b.len() - 14;
    b[at] = 0;
    assert_eq!(casfetch::wdc3::strings(&b).err(), Some(WdcError::BadString));
}

#[test]
fn fetched_content_is_checked_against_both_keys() {
    let raw = literal_blte(b"hello");
    let l = Locator {
        archive: ArchiveKey(1),
        offset: 10,
        length: raw.len(),
        content_key: ContentKey(md5hash(b"hello")),
        encoding_key: EncodingKey(md5hash(&raw)),
    };
    assert_eq!(decode_content(&l, &raw), Ok(b"hello".to_vec()));
    let wrong = Locator { content_key: ContentKey(1), ..l };
    assert_eq!(decode_content(&wrong, &raw), Err(FetchError::ContentChecksum));
    let short = Locator { length: 3, ..l };
    assert_eq!(decode_content(&short, &raw), Err(FetchError::Length));
    let other = Locator { encoding_key: EncodingKey(2), ..l };
    assert_eq!(decode_content(&other, &raw), Err(FetchError::Blte(BlteError::HeaderChecksum)));
    assert_eq!(fetch_range(&l), Some((10, 10 + raw.len() - 1)));
    assert_eq!(fetch_range(&Locator { length: 0, ..l }), None);
}

#[test]
fn resolution_chain_from_tables() {
    let encoding = encoding::parse(&encoding_table(0xa1, 0xa1, 0xe1)).unwrap();
    let root = root::parse(&root_variant_a("Interface\\AddOns\\Foo\\Foo.toc")).unwrap();
    let (d, archive) = index_file(&[(0xe1, 50, 60)], 1);
    let index = parse_index(archive, &d).unwrap();
    let resolver = Resolver { encoding, root, index };
    let located = Locator {
        archive: ArchiveKey(archive),
        offset: 60,
        length: 50,
        content_key: ContentKey(0xa1),
        encoding_key: EncodingKey(0xe1),
    };
    assert_eq!(resolver.by_id(FileDataID(10)), Ok(located));
    assert_eq!(resolver.by_name("interface/addons/foo/foo.toc"), Ok(located));
    assert_eq!(resolver.by_id(FileDataID(11)), Err(LookupError::NoContentKey(ContentKey(0xa2))));
    assert_eq!(resolver.by_id(FileDataID(99)), Err(LookupError::NoFileDataID(FileDataID(99))));
    let mut names = FileNames::new();
    names.add(5, &vec!["Interface\\X.lua".to_string()]);
    assert_eq!(resolver.content_key_for(&names, "Interface\\AddOns\\Foo\\Foo.toc"), Some(ContentKey(0xa1)));
    assert_eq!(resolver.content_key_for(&names, "INTERFACE\\x.LUA"), Some(ContentKey(0xb1)));
    assert_eq!(resolver.content_key_for(&names, "nowhere"), None);
    assert_eq!(
        resolver.seed_manifest("Interface\\AddOns\\Foo\\", "wow"),
        Some("Interface\\AddOns\\Foo\\Foo.toc".to_string())
    );
    assert_eq!(resolver.seed_manifest("Interface\\AddOns\\Bar\\", "wow"), None);
}
