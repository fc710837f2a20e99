//! The structure of a torrent document and its content identifier.
use crate::bencode::encoder::{encode, encoding};
use crate::bencode::value::{BencodeDict, BencodeValue, Value};
use vstd::prelude::*;
use vstd::string::*;

verus! {

/// One file of a multi-file torrent.
#[derive(Debug, PartialEq, Eq)]
pub struct File {
    pub length: usize,
    pub path: Vec<String>,
}

/// The files that a torrent describes: one file, or a directory of files.
#[derive(Debug, PartialEq, Eq)]
pub enum FilesInfo {
    SingleFile { length: usize },
    MultiFile { files: Vec<File> },
}

/// The metadata section of a torrent document.
#[derive(Debug, PartialEq, Eq)]
pub struct Info {
    pub name: String,
    pub piece_length: usize,
    pub pieces: Vec<[u8; 20]>,
    pub files_info: FilesInfo,
}

/// A torrent document.
#[derive(Debug, PartialEq, Eq)]
pub struct TorrentMetaInfo {
    pub announce: String,
    pub info: Info,
}

/// The mathematical content of a [`File`].
pub ghost struct FileView {
    pub length: usize,
    pub path: Seq<Seq<char>>,
}

/// The mathematical content of a [`FilesInfo`].
pub ghost enum FilesInfoView {
    SingleFile { length: usize },
    MultiFile { files: Seq<FileView> },
}

/// The mathematical content of an [`Info`].
pub ghost struct InfoView {
    pub name: Seq<char>,
    pub piece_length: usize,
    pub pieces: Seq<Seq<u8>>,
    pub files_info: FilesInfoView,
}

/// The mathematical content of a [`TorrentMetaInfo`].
pub ghost struct MetaInfoView {
    pub announce: Seq<char>,
    pub info: InfoView,
}

/// The views of a vector of texts, in order.
pub open spec fn texts_view(texts: Seq<String>) -> Seq<Seq<char>> {
    Seq::new(texts.len(), |i: int| texts[i]@)
}

/// The views of a vector of files, in order.
pub open spec fn files_view(files: Seq<File>) -> Seq<FileView> {
    Seq::new(files.len(), |i: int| files[i]@)
}

/// The views of a vector of checksums, in order.
pub open spec fn pieces_view(pieces: Seq<[u8; 20]>) -> Seq<Seq<u8>> {
    Seq::new(pieces.len(), |i: int| pieces[i]@)
}

impl View for File {
    type V = FileView;

    open spec fn view(&self) -> FileView {
        FileView { length: self.length, path: texts_view(self.path@) }
    }
}

impl View for FilesInfo {
    type V = FilesInfoView;

    open spec fn view(&self) -> FilesInfoView {
        match self {
            FilesInfo::SingleFile { length } => FilesInfoView::SingleFile { length: *length },
            FilesInfo::MultiFile { files } => FilesInfoView::MultiFile { files: files_view(files@) },
        }
    }
}

impl View for Info {
    type V = InfoView;

    open spec fn view(&self) -> InfoView {
        InfoView {
            name: self.name@,
            piece_length: self.piece_length,
            pieces: pieces_view(self.pieces@),
            files_info: self.files_info@,
        }
    }
}

impl View for TorrentMetaInfo {
    type V = MetaInfoView;

    open spec fn view(&self) -> MetaInfoView {
        MetaInfoView { announce: self.announce@, info: self.info@ }
    }
}

/// The integer that a length is written as: the length reinterpreted as
/// a signed 64-bit number.
pub open spec fn length_value(length: usize) -> Value {
    Value::Integer((length as i64) as int)
}

/// The texts `texts` as values.
pub open spec fn text_values(texts: Seq<Seq<char>>) -> Seq<Value> {
    Seq::new(texts.len(), |i: int| Value::Text(texts[i]))
}

/// The dictionary that stands for a file: its `length` and its `path`.
pub open spec fn file_value(f: FileView) -> Value {
    Value::Dict(
        Map::<Seq<char>, Value>::empty().insert("length"@, length_value(f.length)).insert(
            "path"@,
            Value::List(text_values(f.path)),
        ),
    )
}

/// The files `files` as values.
pub open spec fn file_values(files: Seq<FileView>) -> Seq<Value> {
    Seq::new(files.len(), |i: int| file_value(files[i]))
}

/// The dictionary that stands for a metadata section: its `name`, its
/// `piece length`, its `pieces` as the checksums one after the other, and
/// either its `length` or its `files`.
pub open spec fn info_value(info: InfoView) -> Value {
    let common = Map::<Seq<char>, Value>::empty().insert("name"@, Value::Text(info.name)).insert(
        "piece length"@,
        length_value(info.piece_length),
    ).insert("pieces"@, Value::Bytes(info.pieces.flatten()));
    match info.files_info {
        FilesInfoView::SingleFile { length } => Value::Dict(
            common.insert("length"@, length_value(length)),
        ),
        FilesInfoView::MultiFile { files } => Value::Dict(
            common.insert("files"@, Value::List(file_values(files))),
        ),
    }
}

/// A part of a torrent document that can be written as a value.
pub trait ToBencode {
    /// The value that stands for this part.
    spec fn bencode_model(&self) -> Value;

    /// Builds the value that stands for this part.
    fn to_bencode_value(&self) -> (value: BencodeValue)
        ensures
            value@ == self.bencode_model(),
    ;
}

/// The integer value of a length.
fn length_to_value(length: usize) -> (value: BencodeValue)
    ensures
        value@ == length_value(length),
{
    BencodeValue::Integer(#[verifier::truncate] (length as i64))
}

impl ToBencode for File {
    open spec fn bencode_model(&self) -> Value {
        file_value(self@)
    }

    fn to_bencode_value(&self) -> (value: BencodeValue) {
        let mut dict = BencodeDict::new();
        dict.insert(String::from_str("length"), length_to_value(self.length));
        let mut path_list: Vec<BencodeValue> = Vec::new();
        let mut i: usize = 0;
        while i < self.path.len()
            invariant
                i <= self.path@.len(),
                path_list@.len() == i,
                forall|j: int| 0 <= j < i ==> (#[trigger] path_list@[j])@ == Value::Text(self.path@[j]@),
            decreases self.path@.len() - i,
        {
            path_list.push(BencodeValue::String(self.path[i].clone()));
            i += 1;
        }
        let path = BencodeValue::List(path_list);
        proof {
            assert(path@->List_0 =~= text_values(self@.path));
        }
        dict.insert(String::from_str("path"), path);
        BencodeValue::Dictionary(dict)
    }
}

impl ToBencode for Info {
    open spec fn bencode_model(&self) -> Value {
        info_value(self@)
    }

    fn to_bencode_value(&self) -> (value: BencodeValue) {
        let mut dict = BencodeDict::new();
        dict.insert(String::from_str("name"), BencodeValue::String(self.name.clone()));
        dict.insert(String::from_str("piece length"), length_to_value(self.piece_length));
        let ghost hashes = pieces_view(self.pieces@);
        let mut pieces_bytes: Vec<u8> = Vec::new();
        let mut i: usize = 0;
        proof {
            assert(hashes.take(0) =~= Seq::<Seq<u8>>::empty());
        }
        while i < self.pieces.len()
            invariant
                i <= self.pieces@.len(),
                hashes == pieces_view(self.pieces@),
                pieces_bytes@ == hashes.take(i as int).flatten(),
            decreases self.pieces@.len() - i,
        {
            let hash = &self.pieces[i];
            let ghost before = pieces_bytes@;
            let mut j: usize = 0;
            while j < 20
                invariant
                    j <= 20,
                    hash@ == hashes[i as int],
                    pieces_bytes@ == before + hash@.take(j as int),
                decreases 20 - j,
            {
                pieces_bytes.push(hash[j]);
                proof {
                    assert(hash@.take(j + 1) =~= hash@.take(j as int).push(hash@[j as int]));
                    assert(pieces_bytes@ =~= before + hash@.take(j + 1));
                }
                j += 1;
            }
            proof {
                assert(hash@.take(20) =~= hash@);
                hashes.take(i as int).lemma_flatten_push(hashes[i as int]);
                assert(hashes.take(i + 1) =~= hashes.take(i as int).push(hashes[i as int]));
            }
            i += 1;
        }
        proof {
            assert(hashes.take(i as int) =~= hashes);
        }
        dict.insert(String::from_str("pieces"), BencodeValue::Bytes(pieces_bytes));
        match &self.files_info {
            FilesInfo::SingleFile { length } => {
                dict.insert(String::from_str("length"), length_to_value(*length));
            },
            FilesInfo::MultiFile { files } => {
                let mut files_list: Vec<BencodeValue> = Vec::new();
                let mut k: usize = 0;
                while k < files.len()
                    invariant
                        k <= files@.len(),
                        files_list@.len() == k,
                        forall|j: int|
                            0 <= j < k ==> (#[trigger] files_list@[j])@ == file_value(files@[j]@),
                    decreases files@.len() - k,
                {
                    files_list.push(files[k].to_bencode_value());
                    k += 1;
                }
                let list = BencodeValue::List(files_list);
                proof {
                    assert(list@->List_0 =~= file_values(files_view(files@)));
                }
                dict.insert(String::from_str("files"), list);
            },
        }
        BencodeValue::Dictionary(dict)
    }
}

/// The SHA-1 digest of a byte string: what the `sha1` crate computes for it.
pub uninterp spec fn sha1_digest(data: Seq<u8>) -> Seq<u8>;

/// Calls `Digest::digest` of `sha1::Sha1`. Trusted: the 20 bytes that it
/// returns are a function of the data alone, named [`sha1_digest`].
#[verifier::external_body]
fn sha1_of(data: &[u8]) -> (digest: [u8; 20])
    ensures
        digest@ == sha1_digest(data@),
{
    <sha1::Sha1 as sha1::Digest>::digest(data).into()
}

/// The content identifier of a metadata section: the SHA-1 digest of the
/// canonical encoding of the dictionary that stands for it.
pub open spec fn content_id(info: InfoView) -> Seq<u8> {
    sha1_digest(encoding(info_value(info)))
}

/// The size of all the files together.
pub open spec fn files_size(files: Seq<FileView>) -> nat
    decreases files.len(),
{
    if files.len() == 0 {
        0
    } else {
        files_size(files.drop_last()) + files.last().length as nat
    }
}

impl MetaInfoView {
    /// The size of the content that the document describes.
    pub open spec fn total_size(self) -> nat {
        match self.info.files_info {
            FilesInfoView::SingleFile { length } => length as nat,
            FilesInfoView::MultiFile { files } => files_size(files),
        }
    }
}

impl TorrentMetaInfo {
    /// The content identifier of the torrent.
    pub fn info_hash(&self) -> (id: [u8; 20])
        ensures
            id@ == content_id(self.info@),
    {
        let info_bencode = self.info.to_bencode_value();
        let bencode_bytes = encode(&info_bencode);
        sha1_of(bencode_bytes.as_slice())
    }

    /// The size of the content, where that fits `usize`.
    pub fn checked_total_size(&self) -> (size: Option<usize>)
        ensures
            match size {
                Some(n) => n == self@.total_size(),
                None => self@.total_size() > usize::MAX,
            },
    {
        match &self.info.files_info {
            FilesInfo::SingleFile { length } => Some(*length),
            FilesInfo::MultiFile { files } => {
                let ghost all = files_view(files@);
                let mut total: usize = 0;
                let mut i: usize = 0;
                proof {
                    assert(all.take(0) =~= Seq::<FileView>::empty());
                }
                while i < files.len()
                    invariant
                        i <= files@.len(),
                        all == files_view(files@),
                        self@.total_size() == files_size(all),
                        total == files_size(all.take(i as int)),
                    decreases files@.len() - i,
                {
                    let length = files[i].length;
                    proof {
                        assert(all.take(i + 1).drop_last() =~= all.take(i as int));
                        assert(all.take(i + 1).last().length == length);
                        assert(files_size(all.take(i + 1)) == total + length);
                        lemma_files_size_prefix(all, i + 1);
                    }
                    if length > usize::MAX - total {
                        return None;
                    }
                    total = total + length;
                    i += 1;
                }
                proof {
                    assert(all.take(i as int) =~= all);
                }
                Some(total)
            },
        }
    }

    /// The size of the content.
    pub fn total_size(&self) -> (size: usize)
        requires
            self@.total_size() <= usize::MAX,
        ensures
            size == self@.total_size(),
    {
        match self.checked_total_size() {
            Some(n) => n,
            None => 0,
        }
    }

    /// The number of pieces, which is the number of checksums.
    pub fn num_pieces(&self) -> (n: usize)
        ensures
            n == self@.info.pieces.len(),
    {
        self.info.pieces.len()
    }
}

/// The files up to any point are no larger than all the files.
pub proof fn lemma_files_size_prefix(files: Seq<FileView>, k: int)
    requires
        0 <= k <= files.len(),
    ensures
        files_size(files.take(k)) <= files_size(files),
    decreases files.len() - k,
{
    if k == files.len() {
        assert(files.take(k) =~= files);
    } else {
        lemma_files_size_prefix(files, k + 1);
        assert(files.take(k + 1).drop_last() =~= files.take(k));
    }
}

/// Documents with the same metadata section have the same content
/// identifier: it depends on what the section holds and on nothing else,
/// such as the order in which the entries of its dictionary were inserted.
pub proof fn lemma_content_id_stable(a: TorrentMetaInfo, b: TorrentMetaInfo)
    requires
        a.info@ == b.info@,
    ensures
        content_id(a.info@) == content_id(b.info@),
{
}

/// The dictionary that stands for a single-file section is the same when
/// its four entries are inserted the other way round, and so is the
/// content identifier computed from it.
pub proof fn lemma_info_value_any_insertion_order(info: InfoView)
    requires
        info.files_info is SingleFile,
    ensures
        info_value(info) == Value::Dict(
            Map::<Seq<char>, Value>::empty().insert(
                "length"@,
                length_value(info.files_info->SingleFile_length),
            ).insert("pieces"@, Value::Bytes(info.pieces.flatten())).insert(
                "piece length"@,
                length_value(info.piece_length),
            ).insert("name"@, Value::Text(info.name)),
        ),
        content_id(info) == sha1_digest(
            encoding(
                Value::Dict(
                    Map::<Seq<char>, Value>::empty().insert(
                        "length"@,
                        length_value(info.files_info->SingleFile_length),
                    ).insert("pieces"@, Value::Bytes(info.pieces.flatten())).insert(
                        "piece length"@,
                        length_value(info.piece_length),
                    ).insert("name"@, Value::Text(info.name)),
                ),
            ),
        ),
{
    reveal_strlit("name");
    reveal_strlit("piece length");
    reveal_strlit("pieces");
    reveal_strlit("length");
    assert("name"@.len() == 4);
    assert("piece length"@.len() == 12);
    assert("pieces"@.len() == 6);
    assert("length"@.len() == 6);
    assert("pieces"@[0] != "length"@[0]);
    assert("name"@ != "piece length"@ && "name"@ != "pieces"@ && "name"@ != "length"@);
    assert("piece length"@ != "pieces"@ && "piece length"@ != "length"@);
    assert("pieces"@ != "length"@);
    let forward = Map::<Seq<char>, Value>::empty().insert("name"@, Value::Text(info.name)).insert(
        "piece length"@,
        length_value(info.piece_length),
    ).insert("pieces"@, Value::Bytes(info.pieces.flatten())).insert(
        "length"@,
        length_value(info.files_info->SingleFile_length),
    );
    let backward = Map::<Seq<char>, Value>::empty().insert(
        "length"@,
        length_value(info.files_info->SingleFile_length),
    ).insert("pieces"@, Value::Bytes(info.pieces.flatten())).insert(
        "piece length"@,
        length_value(info.piece_length),
    ).insert("name"@, Value::Text(info.name));
    assert(forward =~= backward);
}

} // verus!
