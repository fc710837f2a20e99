use torrent_core::bencode::encoder::encode;
use torrent_core::bencode::errors::BencodeError;
use torrent_core::bencode::parser::BencodeParser;
use torrent_core::bencode::value::{BencodeDict, BencodeValue};
use torrent_core::torrent::error::TorrentError;
use torrent_core::torrent::parser::{
    get_files_info, parse_files_list, torrent_from_bencode, torrent_from_bytes,
};
use torrent_core::torrent::value::{File, FilesInfo, Info, ToBencode, TorrentMetaInfo};

fn text(s: &str) -> BencodeValue {
    BencodeValue::String(s.to_string())
}

fn dict_of(entries: Vec<(&str, BencodeValue)>) -> BencodeDict {
    let mut dict = BencodeDict::new();
    for (key, value) in entries {
        dict.insert(key.to_string(), value);
    }
    dict
}

fn hashes() -> Vec<u8> {
    let mut bytes: Vec<u8> = (1..=20).collect();
    bytes.extend(vec![0xffu8; 20]);
    bytes
}

fn single_file_info() -> Vec<(&'static str, BencodeValue)> {
    vec![
        ("name", text("a.txt")),
        ("piece length", BencodeValue::Integer(16384)),
        ("pieces", BencodeValue::Bytes(hashes())),
        ("length", BencodeValue::Integer(5)),
    ]
}

fn file_entry(length: i64, path: Vec<&str>) -> BencodeValue {
    BencodeValue::Dictionary(dict_of(vec![
        ("length", BencodeValue::Integer(length)),
        ("path", BencodeValue::List(path.into_iter().map(text).collect())),
    ]))
}

fn document(info: Vec<(&str, BencodeValue)>) -> BencodeValue {
    BencodeValue::Dictionary(dict_of(vec![
        ("announce", text("http://tracker.example/announce")),
        ("info", BencodeValue::Dictionary(dict_of(info))),
    ]))
}

fn missing(key: &str) -> TorrentError {
    TorrentError::Bencode(BencodeError::MissingKey(key.to_string()))
}

fn wrong(expected: &str, found: &str) -> TorrentError {
    TorrentError::Bencode(BencodeError::WrongType {
        expected: expected.to_string(),
        found: found.to_string(),
    })
}

#[test]
fn a_single_file_document_is_read() {
    let torrent = torrent_from_bencode(&document(single_file_info())).unwrap();
    let mut second = [0xffu8; 20];
    second[0] = 0xff;
    let mut first = [0u8; 20];
    for (i, b) in first.iter_mut().enumerate() {
        *b = i as u8 + 1;
    }
    assert_eq!(
        torrent,
        TorrentMetaInfo {
            announce: "http://tracker.example/announce".to_string(),
            info: Info {
                name: "a.txt".to_string(),
                piece_length: 16384,
                pieces: vec![first, second],
                files_info: FilesInfo::SingleFile { length: 5 },
            },
        }
    );
    assert_eq!(torrent.num_pieces(), 2);
    assert_eq!(torrent.total_size(), 5);
    assert_eq!(torrent.checked_total_size(), Some(5));
}

#[test]
fn a_multi_file_document_is_read() {
    let mut info = single_file_info();
    info.pop();
    info.push((
        "files",
        BencodeValue::List(vec![
            file_entry(3, vec!["a", "b"]),
            file_entry(4, vec!["c"]),
            file_entry(0, vec![]),
        ]),
    ));
    let torrent = torrent_from_bencode(&document(info)).unwrap();
    assert_eq!(
        torrent.info.files_info,
        FilesInfo::MultiFile {
            files: vec![
                File { length: 3, path: vec!["a".to_string(), "b".to_string()] },
                File { length: 4, path: vec!["c".to_string()] },
                File { length: 0, path: vec![] },
            ],
        }
    );
    assert_eq!(torrent.total_size(), 7);
}

#[test]
fn both_length_and_files_is_refused() {
    let mut info = single_file_info();
    info.push(("files", BencodeValue::List(vec![file_entry(3, vec!["a"])])));
    assert_eq!(
        torrent_from_bencode(&document(info.clone())),
        Err(TorrentError::InvalidFilesInfo)
    );
    assert_eq!(
        get_files_info(&dict_of(info)),
        Err(TorrentError::InvalidFilesInfo)
    );
}

#[test]
fn neither_length_nor_files_is_refused() {
    let mut info = single_file_info();
    info.pop();
    assert_eq!(
        torrent_from_bencode(&document(info.clone())),
        Err(TorrentError::InvalidFilesInfo)
    );
    assert_eq!(
        get_files_info(&dict_of(info)),
        Err(TorrentError::InvalidFilesInfo)
    );
    assert_eq!(
        get_files_info(&BencodeDict::new()),
        Err(TorrentError::InvalidFilesInfo)
    );
}

#[test]
fn the_layout_is_read_from_the_one_key() {
    assert_eq!(
        get_files_info(&dict_of(vec![("length", BencodeValue::Integer(9))])),
        Ok(FilesInfo::SingleFile { length: 9 })
    );
    assert_eq!(
        get_files_info(&dict_of(vec![("files", BencodeValue::List(vec![]))])),
        Ok(FilesInfo::MultiFile { files: vec![] })
    );
    assert_eq!(
        get_files_info(&dict_of(vec![("length", text("9"))])),
        Err(wrong("Integer", "String"))
    );
    assert_eq!(
        get_files_info(&dict_of(vec![("files", BencodeValue::Integer(1))])),
        Err(wrong("List", "Int"))
    );
}

#[test]
fn pieces_must_be_whole_checksums() {
    let mut info = single_file_info();
    let mut bytes = hashes();
    bytes.pop();
    info[2] = ("pieces", BencodeValue::Bytes(bytes));
    assert_eq!(
        torrent_from_bencode(&document(info)),
        Err(TorrentError::InvalidPieces)
    );
}

#[test]
fn pieces_must_be_raw_bytes() {
    let mut info = single_file_info();
    info[2] = ("pieces", text("aaaaaaaaaaaaaaaaaaaa"));
    assert_eq!(
        torrent_from_bencode(&document(info)),
        Err(wrong("Bytes", "String"))
    );
}

#[test]
fn fields_are_read_in_order() {
    assert_eq!(
        torrent_from_bencode(&BencodeValue::Integer(1)),
        Err(wrong("Dict", "Int"))
    );
    assert_eq!(
        torrent_from_bencode(&BencodeValue::Dictionary(BencodeDict::new())),
        Err(missing("announce"))
    );
    assert_eq!(
        torrent_from_bencode(&BencodeValue::Dictionary(dict_of(vec![(
            "announce",
            text("x")
        )]))),
        Err(missing("info"))
    );
    assert_eq!(
        torrent_from_bencode(&BencodeValue::Dictionary(dict_of(vec![
            ("announce", text("x")),
            ("info", BencodeValue::List(vec![])),
        ]))),
        Err(wrong("Dict", "List"))
    );
    assert_eq!(torrent_from_bencode(&document(vec![])), Err(missing("name")));
    assert_eq!(
        torrent_from_bencode(&document(vec![("name", text("n"))])),
        Err(missing("piece length"))
    );
    assert_eq!(
        torrent_from_bencode(&document(vec![
            ("name", text("n")),
            ("piece length", BencodeValue::Integer(1)),
        ])),
        Err(missing("pieces"))
    );
    assert_eq!(
        torrent_from_bencode(&document(vec![
            ("name", text("n")),
            ("piece length", BencodeValue::Integer(1)),
            ("pieces", BencodeValue::Bytes(vec![0xff; 3])),
        ])),
        Err(TorrentError::InvalidPieces)
    );
}

#[test]
fn a_file_list_is_read_up_to_its_first_bad_item() {
    let list = |items: Vec<BencodeValue>| dict_of(vec![("files", BencodeValue::List(items))]);
    assert_eq!(parse_files_list(&BencodeDict::new()), Err(missing("files")));
    assert_eq!(parse_files_list(&list(vec![])), Ok(vec![]));
    assert_eq!(
        parse_files_list(&list(vec![file_entry(1, vec!["x"]), BencodeValue::Integer(1)])),
        Err(wrong("Dict", "Int"))
    );
    assert_eq!(
        parse_files_list(&list(vec![
            BencodeValue::Dictionary(dict_of(vec![("path", BencodeValue::List(vec![]))])),
            BencodeValue::Integer(1),
        ])),
        Err(missing("length"))
    );
    assert_eq!(
        parse_files_list(&list(vec![BencodeValue::Dictionary(dict_of(vec![(
            "length",
            BencodeValue::Integer(1)
        )]))])),
        Err(missing("path"))
    );
    assert_eq!(
        parse_files_list(&list(vec![BencodeValue::Dictionary(dict_of(vec![
            ("length", BencodeValue::Integer(1)),
            ("path", BencodeValue::List(vec![text("a"), BencodeValue::Bytes(vec![0xff])])),
        ]))])),
        Err(wrong("String", "Bytes"))
    );
}

#[test]
fn a_negative_length_is_reinterpreted() {
    assert_eq!(
        get_files_info(&dict_of(vec![("length", BencodeValue::Integer(-1))])),
        Ok(FilesInfo::SingleFile { length: usize::MAX })
    );
}

#[test]
fn a_document_is_read_from_bytes() {
    let mut bytes = b"d8:announce3:url4:infod6:lengthi5e4:name1:n12:piece lengthi2e6:pieces20:"
        .to_vec();
    bytes.extend(vec![0x80u8; 20]);
    bytes.extend_from_slice(b"eetrailing");
    let torrent = torrent_from_bytes(&bytes).unwrap();
    assert_eq!(torrent.announce, "url");
    assert_eq!(torrent.info.name, "n");
    assert_eq!(torrent.info.piece_length, 2);
    assert_eq!(torrent.info.pieces, vec![[0x80u8; 20]]);
    assert_eq!(torrent.info.files_info, FilesInfo::SingleFile { length: 5 });
}

#[test]
fn bytes_that_do_not_decode_are_refused() {
    assert_eq!(
        torrent_from_bytes(b""),
        Err(TorrentError::Bencode(BencodeError::UnexpectedEof))
    );
    assert_eq!(torrent_from_bytes(b"i1e"), Err(wrong("Dict", "Int")));
    assert!(matches!(
        torrent_from_bytes(b"d8:announce"),
        Err(TorrentError::Bencode(BencodeError::UnexpectedEof))
    ));
}

fn single() -> TorrentMetaInfo {
    let mut first = [0u8; 20];
    for (i, b) in first.iter_mut().enumerate() {
        *b = i as u8 + 1;
    }
    TorrentMetaInfo {
        announce: "http://tracker.example/announce".to_string(),
        info: Info {
            name: "a.txt".to_string(),
            piece_length: 16384,
            pieces: vec![first],
            files_info: FilesInfo::SingleFile { length: 5 },
        },
    }
}

fn multi() -> TorrentMetaInfo {
    TorrentMetaInfo {
        announce: "ignored".to_string(),
        info: Info {
            name: "dir".to_string(),
            piece_length: 32768,
            pieces: vec![[0xff; 20], [0xff; 20]],
            files_info: FilesInfo::MultiFile {
                files: vec![
                    File { length: 3, path: vec!["a".to_string(), "b".to_string()] },
                    File { length: 4, path: vec!["c".to_string()] },
                ],
            },
        },
    }
}

#[test]
fn a_file_is_written_as_a_dictionary() {
    let file = File { length: 3, path: vec!["a".to_string(), "b".to_string()] };
    assert_eq!(file.to_bencode_value(), file_entry(3, vec!["a", "b"]));
    assert_eq!(
        encode(&file.to_bencode_value()),
        b"d6:lengthi3e4:pathl1:a1:bee".to_vec()
    );
}

#[test]
fn a_metadata_section_is_written_as_a_dictionary() {
    let mut expected = b"d6:lengthi5e4:name5:a.txt12:piece lengthi16384e6:pieces20:".to_vec();
    expected.extend(1..=20u8);
    expected.push(b'e');
    assert_eq!(encode(&single().info.to_bencode_value()), expected);
    let mut expected = b"d5:filesld6:lengthi3e4:pathl1:a1:beed6:lengthi4e4:pathl1:ceee4:name3:dir12:piece lengthi32768e6:pieces40:".to_vec();
    expected.extend(vec![0xffu8; 40]);
    expected.push(b'e');
    assert_eq!(encode(&multi().info.to_bencode_value()), expected);
}

#[test]
fn the_content_identifier_is_the_digest_of_the_encoding() {
    assert_eq!(
        single().info_hash(),
        [80, 23, 201, 12, 4, 159, 71, 160, 10, 65, 45, 232, 115, 164, 98, 206, 195, 79, 192, 247]
    );
    assert_eq!(
        multi().info_hash(),
        [6, 30, 70, 211, 66, 45, 33, 49, 105, 5, 190, 205, 124, 96, 213, 40, 119, 74, 194, 246]
    );
}

#[test]
fn the_content_identifier_is_stable() {
    assert_eq!(single().info_hash(), single().info_hash());
    let mut other = single();
    other.announce = "elsewhere".to_string();
    assert_eq!(other.info_hash(), single().info_hash());
    other.info.name = "b.txt".to_string();
    assert_ne!(other.info_hash(), single().info_hash());
}

#[test]
fn the_content_identifier_survives_decoding_in_any_key_order() {
    let mut canonical = b"d8:announce3:url4:infod6:lengthi5e4:name1:n12:piece lengthi2e6:pieces20:"
        .to_vec();
    canonical.extend(vec![0x80u8; 20]);
    canonical.extend_from_slice(b"ee");
    let mut shuffled = b"d4:infod6:pieces20:".to_vec();
    shuffled.extend(vec![0x80u8; 20]);
    shuffled.extend_from_slice(b"4:name1:n6:lengthi5e12:piece lengthi2ee8:announce3:urle");
    let a = torrent_from_bytes(&canonical).unwrap();
    let b = torrent_from_bytes(&shuffled).unwrap();
    assert_eq!(a, b);
    assert_eq!(a.info_hash(), b.info_hash());
    let (value, _) = BencodeParser::parse_value(&shuffled).unwrap();
    assert_eq!(encode(&value), canonical);
}

#[test]
fn the_total_size_adds_the_files() {
    assert_eq!(single().total_size(), 5);
    assert_eq!(multi().total_size(), 7);
    assert_eq!(multi().checked_total_size(), Some(7));
    assert_eq!(multi().num_pieces(), 2);
    let mut empty = multi();
    empty.info.files_info = FilesInfo::MultiFile { files: vec![] };
    assert_eq!(empty.total_size(), 0);
}

#[test]
fn a_total_size_beyond_the_machine_is_none() {
    let mut huge = multi();
    huge.info.files_info = FilesInfo::MultiFile {
        files: vec![
            File { length: usize::MAX, path: vec![] },
            File { length: 1, path: vec![] },
        ],
    };
    assert_eq!(huge.checked_total_size(), None);
    huge.info.files_info = FilesInfo::MultiFile {
        files: vec![
            File { length: usize::MAX - 1, path: vec![] },
            File { length: 1, path: vec![] },
        ],
    };
    assert_eq!(huge.checked_total_size(), Some(usize::MAX));
}
