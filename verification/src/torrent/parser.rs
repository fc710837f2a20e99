//! Reading a torrent document out of a decoded value.
use crate::bencode::errors::{BencodeError, ErrorView};
use crate::bencode::helper::{
    bytes_field, dict_field, get_bytes, get_dict, get_int, get_list, get_string, int_field,
    list_field, text_field,
};
use crate::bencode::parser::{decode_value, BencodeParser, MAX_DEPTH};
use crate::bencode::value::{list_view, BencodeDict, BencodeValue, Value};
use crate::bytes::take_array;
use crate::torrent::error::{TorrentError, TorrentErrorView};
use crate::torrent::value::{
    files_view, pieces_view, texts_view, File, FileView, FilesInfo, FilesInfoView, Info, InfoView,
    MetaInfoView, TorrentMetaInfo,
};
use vstd::prelude::*;
use vstd::string::*;

verus! {

/// The length that the integer `n` of a document stands for: `n`
/// reinterpreted as a `usize`.
pub open spec fn length_of(n: int) -> usize {
    n as usize
}

/// The segments of a path: every item of `l` has to be a text. The first
/// item that is none decides the failure.
pub open spec fn path_of(l: Seq<Value>) -> Result<Seq<Seq<char>>, ErrorView>
    decreases l.len(),
{
    if l.len() == 0 {
        Ok(Seq::empty())
    } else {
        match path_of(l.drop_last()) {
            Err(e) => Err(e),
            Ok(segments) => match l.last() {
                Value::Text(s) => Ok(segments.push(s)),
                other => Err(other.mismatch("String"@)),
            },
        }
    }
}

/// The file that `v` stands for: a dictionary with an integer `length` and
/// a `path` that is a list of texts.
pub open spec fn file_of(v: Value) -> Result<FileView, ErrorView> {
    match v {
        Value::Dict(m) => match int_field(m, "length"@) {
            Err(e) => Err(e),
            Ok(n) => match list_field(m, "path"@) {
                Err(e) => Err(e),
                Ok(l) => match path_of(l) {
                    Err(e) => Err(e),
                    Ok(path) => Ok(FileView { length: length_of(n), path }),
                },
            },
        },
        other => Err(other.mismatch("Dict"@)),
    }
}

/// The files that the items of `l` stand for. The first item that stands
/// for none decides the failure.
pub open spec fn files_of(l: Seq<Value>) -> Result<Seq<FileView>, ErrorView>
    decreases l.len(),
{
    if l.len() == 0 {
        Ok(Seq::empty())
    } else {
        match files_of(l.drop_last()) {
            Err(e) => Err(e),
            Ok(files) => match file_of(l.last()) {
                Err(e) => Err(e),
                Ok(file) => Ok(files.push(file)),
            },
        }
    }
}

/// The files listed under `files` in the dictionary `m`.
pub open spec fn files_list_of(m: Map<Seq<char>, Value>) -> Result<Seq<FileView>, ErrorView> {
    match list_field(m, "files"@) {
        Err(e) => Err(e),
        Ok(l) => files_of(l),
    }
}

/// Lifts a failure of the codec to a failure of the document.
pub open spec fn lift<T>(r: Result<T, ErrorView>) -> Result<T, TorrentErrorView> {
    match r {
        Ok(x) => Ok(x),
        Err(e) => Err(TorrentErrorView::Bencode(e)),
    }
}

/// The layout that the metadata dictionary `m` declares: a single file
/// where it has `length` and no `files`, several files where it has `files`
/// and no `length`, and a failure where it has both or neither.
pub open spec fn files_info_of(m: Map<Seq<char>, Value>) -> Result<
    FilesInfoView,
    TorrentErrorView,
> {
    if m.contains_key("length"@) && !m.contains_key("files"@) {
        match int_field(m, "length"@) {
            Err(e) => Err(TorrentErrorView::Bencode(e)),
            Ok(n) => Ok(FilesInfoView::SingleFile { length: length_of(n) }),
        }
    } else if !m.contains_key("length"@) && m.contains_key("files"@) {
        match files_list_of(m) {
            Err(e) => Err(TorrentErrorView::Bencode(e)),
            Ok(files) => Ok(FilesInfoView::MultiFile { files }),
        }
    } else {
        Err(TorrentErrorView::InvalidFilesInfo)
    }
}

/// The checksums that the bytes `b` hold: consecutive runs of 20 bytes.
pub open spec fn pieces_of(b: Seq<u8>) -> Result<Seq<Seq<u8>>, TorrentErrorView> {
    if b.len() % 20 == 0 {
        Ok(Seq::new(b.len() / 20, |i: int| b.subrange(20 * i, 20 * i + 20)))
    } else {
        Err(TorrentErrorView::InvalidPieces)
    }
}

/// The metadata section that the dictionary `m` stands for. The fields are
/// read in the order `name`, `piece length`, `pieces`, then the layout, and
/// the first that fails decides the failure.
pub open spec fn info_of(m: Map<Seq<char>, Value>) -> Result<InfoView, TorrentErrorView> {
    match text_field(m, "name"@) {
        Err(e) => Err(TorrentErrorView::Bencode(e)),
        Ok(name) => match int_field(m, "piece length"@) {
            Err(e) => Err(TorrentErrorView::Bencode(e)),
            Ok(n) => match bytes_field(m, "pieces"@) {
                Err(e) => Err(TorrentErrorView::Bencode(e)),
                Ok(b) => match pieces_of(b) {
                    Err(e) => Err(e),
                    Ok(pieces) => match files_info_of(m) {
                        Err(e) => Err(e),
                        Ok(files_info) => Ok(
                            InfoView { name, piece_length: length_of(n), pieces, files_info },
                        ),
                    },
                },
            },
        },
    }
}

/// The document that the value `v` stands for: a dictionary with a text
/// `announce` and a dictionary `info`.
pub open spec fn metainfo_of(v: Value) -> Result<MetaInfoView, TorrentErrorView> {
    match v {
        Value::Dict(m) => match text_field(m, "announce"@) {
            Err(e) => Err(TorrentErrorView::Bencode(e)),
            Ok(announce) => match dict_field(m, "info"@) {
                Err(e) => Err(TorrentErrorView::Bencode(e)),
                Ok(info_dict) => match info_of(info_dict) {
                    Err(e) => Err(e),
                    Ok(info) => Ok(MetaInfoView { announce, info }),
                },
            },
        },
        other => Err(TorrentErrorView::Bencode(other.mismatch("Dict"@))),
    }
}

/// The document that the bytes `s` hold: what their first value stands
/// for. Bytes after that value are not looked at.
pub open spec fn document_of(s: Seq<u8>) -> Result<MetaInfoView, TorrentErrorView> {
    match decode_value(s, MAX_DEPTH as nat) {
        Err(e) => Err(TorrentErrorView::Bencode(e)),
        Ok((v, _)) => metainfo_of(v),
    }
}

/// A failure among the first items of a path is the failure of the path.
pub proof fn lemma_path_of_failure(l: Seq<Value>, k: int)
    requires
        0 <= k <= l.len(),
        path_of(l.take(k)) is Err,
    ensures
        path_of(l) == path_of(l.take(k)),
    decreases l.len() - k,
{
    if k == l.len() {
        assert(l.take(k) =~= l);
    } else {
        assert(l.take(k + 1).drop_last() =~= l.take(k));
        lemma_path_of_failure(l, k + 1);
    }
}

/// A failure among the first items of a file list is the failure of the list.
pub proof fn lemma_files_of_failure(l: Seq<Value>, k: int)
    requires
        0 <= k <= l.len(),
        files_of(l.take(k)) is Err,
    ensures
        files_of(l) == files_of(l.take(k)),
    decreases l.len() - k,
{
    if k == l.len() {
        assert(l.take(k) =~= l);
    } else {
        assert(l.take(k + 1).drop_last() =~= l.take(k));
        lemma_files_of_failure(l, k + 1);
    }
}

/// A metadata section that has both `length` and `files`, or neither, is
/// refused for that, whatever else it holds.
pub proof fn lemma_layout_needs_exactly_one(m: Map<Seq<char>, Value>)
    requires
        m.contains_key("length"@) == m.contains_key("files"@),
    ensures
        files_info_of(m) == Err::<FilesInfoView, _>(TorrentErrorView::InvalidFilesInfo),
{
}

/// Reads the segments of a path.
fn parse_path(list: &Vec<BencodeValue>) -> (r: Result<Vec<String>, BencodeError>)
    ensures
        match r {
            Ok(path) => path_of(list_view(list@)) == Ok::<_, ErrorView>(texts_view(path@)),
            Err(e) => path_of(list_view(list@)) == Err::<Seq<Seq<char>>, _>(e@),
        },
{
    let ghost items = list_view(list@);
    let mut path: Vec<String> = Vec::new();
    let mut i: usize = 0;
    proof {
        assert(items.take(0) =~= Seq::<Value>::empty());
        assert(texts_view(path@) =~= Seq::<Seq<char>>::empty());
    }
    while i < list.len()
        invariant
            i <= list@.len(),
            items == list_view(list@),
            path_of(items.take(i as int)) == Ok::<_, ErrorView>(texts_view(path@)),
        decreases list@.len() - i,
    {
        proof {
            assert(items.take(i + 1).drop_last() =~= items.take(i as int));
            assert(items.take(i + 1).last() == list@[i as int]@);
        }
        match list[i].as_string() {
            Ok(segment) => {
                let owned = String::from_str(segment);
                proof {
                    assert(texts_view(path@.push(owned)) =~= texts_view(path@).push(segment@));
                }
                path.push(owned);
            },
            Err(e) => {
                proof {
                    lemma_path_of_failure(items, i + 1);
                }
                return Err(e);
            },
        }
        i += 1;
    }
    proof {
        assert(items.take(i as int) =~= items);
    }
    Ok(path)
}

/// Reads one file of a file list.
fn parse_file(value: &BencodeValue) -> (r: Result<File, BencodeError>)
    ensures
        match r {
            Ok(file) => file_of(value@) == Ok::<_, ErrorView>(file@),
            Err(e) => file_of(value@) == Err::<FileView, _>(e@),
        },
{
    let file_dict = value.as_dict()?;
    let length = #[verifier::truncate] (get_int(file_dict, "length")? as usize);
    let path_list = get_list(file_dict, "path")?;
    let path = parse_path(path_list)?;
    Ok(File { length, path })
}

/// Reads the files listed under `files` in a metadata dictionary.
pub fn parse_files_list(dict: &BencodeDict) -> (r: Result<Vec<File>, TorrentError>)
    ensures
        match r {
            Ok(files) => lift(files_list_of(dict@)) == Ok::<_, TorrentErrorView>(
                files_view(files@),
            ),
            Err(e) => lift(files_list_of(dict@)) == Err::<Seq<FileView>, _>(e@),
        },
{
    let list = match get_list(dict, "files") {
        Ok(list) => list,
        Err(e) => {
            return Err(TorrentError::Bencode(e));
        },
    };
    let ghost items = list_view(list@);
    let mut files: Vec<File> = Vec::new();
    let mut i: usize = 0;
    proof {
        assert(items.take(0) =~= Seq::<Value>::empty());
        assert(files_view(files@) =~= Seq::<FileView>::empty());
    }
    while i < list.len()
        invariant
            i <= list@.len(),
            items == list_view(list@),
            files_list_of(dict@) == files_of(items),
            files_of(items.take(i as int)) == Ok::<_, ErrorView>(files_view(files@)),
        decreases list@.len() - i,
    {
        proof {
            assert(items.take(i + 1).drop_last() =~= items.take(i as int));
            assert(items.take(i + 1).last() == list@[i as int]@);
        }
        match parse_file(&list[i]) {
            Ok(file) => {
                proof {
                    assert(files_view(files@.push(file)) =~= files_view(files@).push(file@));
                }
                files.push(file);
            },
            Err(e) => {
                proof {
                    lemma_files_of_failure(items, i + 1);
                }
                return Err(TorrentError::Bencode(e));
            },
        }
        i += 1;
    }
    proof {
        assert(items.take(i as int) =~= items);
    }
    Ok(files)
}

/// Reads the layout that a metadata dictionary declares.
pub fn get_files_info(dict: &BencodeDict) -> (r: Result<FilesInfo, TorrentError>)
    ensures
        match r {
            Ok(layout) => files_info_of(dict@) == Ok::<_, TorrentErrorView>(layout@),
            Err(e) => files_info_of(dict@) == Err::<FilesInfoView, _>(e@),
        },
{
    let has_length = dict.contains_key("length");
    let has_files = dict.contains_key("files");
    if has_length && !has_files {
        match get_int(dict, "length") {
            Ok(n) => Ok(FilesInfo::SingleFile { length: #[verifier::truncate] (n as usize) }),
            Err(e) => Err(TorrentError::Bencode(e)),
        }
    } else if !has_length && has_files {
        match parse_files_list(dict) {
            Ok(files) => Ok(FilesInfo::MultiFile { files }),
            Err(e) => Err(e),
        }
    } else {
        Err(TorrentError::InvalidFilesInfo)
    }
}

/// Cuts the checksums out of the bytes of `pieces`.
fn parse_pieces(bytes: &Vec<u8>) -> (r: Result<Vec<[u8; 20]>, TorrentError>)
    ensures
        match r {
            Ok(pieces) => pieces_of(bytes@) == Ok::<_, TorrentErrorView>(pieces_view(pieces@)),
            Err(e) => pieces_of(bytes@) == Err::<Seq<Seq<u8>>, _>(e@),
        },
{
    let total = bytes.len();
    if total % 20 != 0 {
        return Err(TorrentError::InvalidPieces);
    }
    let count = total / 20;
    let mut pieces: Vec<[u8; 20]> = Vec::new();
    let mut i: usize = 0;
    while i < count
        invariant
            i <= count,
            total == bytes@.len(),
            total == count * 20,
            pieces@.len() == i,
            forall|j: int| 0 <= j < i ==> (#[trigger] pieces@[j])@ == bytes@.subrange(20 * j, 20 * j + 20),
        decreases count - i,
    {
        let piece: [u8; 20] = take_array(bytes.as_slice(), 20 * i);
        pieces.push(piece);
        i += 1;
    }
    proof {
        assert(pieces_view(pieces@) =~= Seq::new(
            bytes@.len() / 20,
            |i: int| bytes@.subrange(20 * i, 20 * i + 20),
        ));
    }
    Ok(pieces)
}

/// Reads a metadata section out of its dictionary.
fn info_from_dict(info_dict: &BencodeDict) -> (r: Result<Info, TorrentError>)
    ensures
        match r {
            Ok(info) => info_of(info_dict@) == Ok::<_, TorrentErrorView>(info@),
            Err(e) => info_of(info_dict@) == Err::<InfoView, _>(e@),
        },
{
    let name = match get_string(info_dict, "name") {
        Ok(name) => name,
        Err(e) => {
            return Err(TorrentError::Bencode(e));
        },
    };
    let piece_length = match get_int(info_dict, "piece length") {
        Ok(n) => #[verifier::truncate] (n as usize),
        Err(e) => {
            return Err(TorrentError::Bencode(e));
        },
    };
    let pieces_bytes = match get_bytes(info_dict, "pieces") {
        Ok(bytes) => bytes,
        Err(e) => {
            return Err(TorrentError::Bencode(e));
        },
    };
    let pieces = parse_pieces(pieces_bytes)?;
    let files_info = get_files_info(info_dict)?;
    Ok(Info { name, piece_length, pieces, files_info })
}

/// Reads a torrent document out of a decoded value.
pub fn torrent_from_bencode(input: &BencodeValue) -> (r: Result<TorrentMetaInfo, TorrentError>)
    ensures
        match r {
            Ok(torrent) => metainfo_of(input@) == Ok::<_, TorrentErrorView>(torrent@),
            Err(e) => metainfo_of(input@) == Err::<MetaInfoView, _>(e@),
        },
{
    let bencode_dict = match input.as_dict() {
        Ok(dict) => dict,
        Err(e) => {
            return Err(TorrentError::Bencode(e));
        },
    };
    let announce = match get_string(bencode_dict, "announce") {
        Ok(announce) => announce,
        Err(e) => {
            return Err(TorrentError::Bencode(e));
        },
    };
    let info_dict = match get_dict(bencode_dict, "info") {
        Ok(dict) => dict,
        Err(e) => {
            return Err(TorrentError::Bencode(e));
        },
    };
    let info = info_from_dict(info_dict)?;
    Ok(TorrentMetaInfo { announce, info })
}

/// Reads a torrent document out of the bytes of a file: decodes the first
/// value and reads the document out of it.
pub fn torrent_from_bytes(contents: &[u8]) -> (r: Result<TorrentMetaInfo, TorrentError>)
    ensures
        match r {
            Ok(torrent) => document_of(contents@) == Ok::<_, TorrentErrorView>(torrent@),
            Err(e) => document_of(contents@) == Err::<MetaInfoView, _>(e@),
        },
{
    match BencodeParser::parse_value(contents) {
        Ok((value, _)) => torrent_from_bencode(&value),
        Err(e) => Err(TorrentError::Bencode(e)),
    }
}

} // verus!
