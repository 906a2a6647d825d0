use vstd::prelude::*;
use crate::bencode_content::{item_views, lemma_content_views, lookup, Content, Dict, Entries, Value};
use crate::bytes::copy_range;

verus! {

/// One file of a torrent, as mathematics sees it.
pub struct FileView {
    pub path_to_file: Seq<Seq<char>>,
    pub size: nat,
}

/// A torrent descriptor, as mathematics sees it.
pub struct TorrentView {
    pub pieces: Seq<Seq<u8>>,
    pub piece_length: nat,
    pub files: Seq<FileView>,
    pub announce: Seq<char>,
    pub announce_list: Option<Seq<Seq<char>>>,
}

/// One file of a torrent: its path, component by component, and its size.
#[derive(Debug, Clone)]
pub struct File {
    pub path_to_file: Vec<String>,
    pub size: usize,
}

/// What a metainfo file says of a torrent.
#[derive(Debug, Clone)]
pub struct TorrentData {
    pub pieces: Vec<Vec<u8>>,
    pub piece_length: usize,
    pub files: Vec<File>,
    pub announce: String,
    pub announce_list: Option<Vec<String>>,
}

/// The texts of a vector of strings.
pub open spec fn texts(v: Seq<String>) -> Seq<Seq<char>> {
    Seq::new(v.len(), |i: int| v[i]@)
}

/// The byte strings of a vector of byte vectors.
pub open spec fn byte_strings(v: Seq<Vec<u8>>) -> Seq<Seq<u8>> {
    Seq::new(v.len(), |i: int| v[i]@)
}

impl View for File {
    type V = FileView;

    open spec fn view(&self) -> FileView {
        FileView { path_to_file: texts(self.path_to_file@), size: self.size as nat }
    }
}

/// The views of a vector of files.
pub open spec fn file_views(v: Seq<File>) -> Seq<FileView> {
    Seq::new(v.len(), |i: int| v[i]@)
}

impl View for TorrentData {
    type V = TorrentView;

    open spec fn view(&self) -> TorrentView {
        TorrentView {
            pieces: byte_strings(self.pieces@),
            piece_length: self.piece_length as nat,
            files: file_views(self.files@),
            announce: self.announce@,
            announce_list: match self.announce_list {
                Some(list) => Some(texts(list@)),
                None => None,
            },
        }
    }
}

/// The sizes of the first `n` files, added up.
pub open spec fn size_of_first(files: Seq<FileView>, n: nat) -> nat
    decreases n,
{
    if n == 0 || n > files.len() {
        0
    } else {
        size_of_first(files, (n - 1) as nat) + files[n - 1].size
    }
}

/// The sizes of all files, added up.
pub open spec fn total_size(files: Seq<FileView>) -> nat {
    size_of_first(files, files.len())
}

impl TorrentView {
    /// Every digest has 20 bytes.
    pub open spec fn well_formed(self) -> bool {
        forall|i: int| 0 <= i < self.pieces.len() ==> (#[trigger] self.pieces[i]).len() == 20
    }
}

/// A field of a metainfo file.
#[derive(Clone, Copy, Debug, PartialEq, Eq, Structural)]
pub enum Field {
    Info,
    Pieces,
    Name,
    Files,
    Path,
    Length,
    PieceLength,
    Announce,
    AnnounceList,
}

/// Why a dictionary was not taken as the description of a torrent.
#[derive(Clone, Copy, Debug, PartialEq, Eq, Structural)]
pub enum ExtractError {
    /// The field is not there.
    MissingField(Field),
    /// The field holds a value of another kind than it has to, or a
    /// number that is no size.
    WrongTag(Field),
    /// The digests are not a whole number of 20 bytes each.
    BadPiecesLength,
}

/// The value under `key`, which has to be there.
pub open spec fn field_of(entries: Entries, key: Seq<char>, field: Field) -> Result<Value, ExtractError> {
    match lookup(entries, key) {
        Some(v) => Ok(v),
        None => Err(ExtractError::MissingField(field)),
    }
}

/// A value as a size: an integer that is not negative and fits a `usize`.
pub open spec fn size_of(v: Value, field: Field) -> Result<nat, ExtractError> {
    match v {
        Value::Int(n) => if 0 <= n <= usize::MAX {
            Ok(n as nat)
        } else {
            Err(ExtractError::WrongTag(field))
        },
        _ => Err(ExtractError::WrongTag(field)),
    }
}

/// A value as a text.
pub open spec fn text_of(v: Value, field: Field) -> Result<Seq<char>, ExtractError> {
    match v {
        Value::Str(s) => Ok(s),
        _ => Err(ExtractError::WrongTag(field)),
    }
}

/// A value as a list.
pub open spec fn list_of(v: Value, field: Field) -> Result<Seq<Value>, ExtractError> {
    match v {
        Value::List(items) => Ok(items),
        _ => Err(ExtractError::WrongTag(field)),
    }
}

/// A value as a dictionary.
pub open spec fn dict_of(v: Value, field: Field) -> Result<Entries, ExtractError> {
    match v {
        Value::Dict(entries) => Ok(entries),
        _ => Err(ExtractError::WrongTag(field)),
    }
}

/// A value as raw bytes.
pub open spec fn bytes_of(v: Value, field: Field) -> Result<Seq<u8>, ExtractError> {
    match v {
        Value::Bytes(b) => Ok(b),
        _ => Err(ExtractError::WrongTag(field)),
    }
}

/// The first `n` items of a list as texts, after the texts `before`.
pub open spec fn texts_of(items: Seq<Value>, n: nat, before: Seq<Seq<char>>, field: Field) -> Result<
    Seq<Seq<char>>,
    ExtractError,
>
    decreases n,
{
    if n == 0 || n > items.len() {
        Ok(before)
    } else {
        match texts_of(items, (n - 1) as nat, before, field) {
            Err(e) => Err(e),
            Ok(texts) => match text_of(items[n - 1], field) {
                Err(e) => Err(e),
                Ok(t) => Ok(texts.push(t)),
            },
        }
    }
}

/// One entry of `files`: its path under the directory `directory`, and
/// its size.
pub open spec fn file_of(v: Value, directory: Seq<char>) -> Result<FileView, ExtractError> {
    match dict_of(v, Field::Files) {
        Err(e) => Err(e),
        Ok(entries) => match field_of(entries, "path"@, Field::Path) {
            Err(e) => Err(e),
            Ok(p) => match list_of(p, Field::Path) {
                Err(e) => Err(e),
                Ok(items) => match texts_of(items, items.len(), seq![directory], Field::Path) {
                    Err(e) => Err(e),
                    Ok(path) => match field_of(entries, "length"@, Field::Length) {
                        Err(e) => Err(e),
                        Ok(l) => match size_of(l, Field::Length) {
                            Err(e) => Err(e),
                            Ok(size) => Ok(FileView { path_to_file: path, size: size }),
                        },
                    },
                },
            },
        },
    }
}

/// The first `n` entries of `files`.
pub open spec fn files_of(list: Seq<Value>, n: nat, directory: Seq<char>) -> Result<Seq<FileView>, ExtractError>
    decreases n,
{
    if n == 0 || n > list.len() {
        Ok(Seq::empty())
    } else {
        match files_of(list, (n - 1) as nat, directory) {
            Err(e) => Err(e),
            Ok(files) => match file_of(list[n - 1], directory) {
                Err(e) => Err(e),
                Ok(f) => Ok(files.push(f)),
            },
        }
    }
}

/// The files of a torrent: those of `files` under the directory `name`
/// where there is such a field, else the one file `name` of `length` bytes.
pub open spec fn all_files_of(info: Entries) -> Result<Seq<FileView>, ExtractError> {
    match lookup(info, "files"@) {
        Some(files) => match field_of(info, "name"@, Field::Name) {
            Err(e) => Err(e),
            Ok(n) => match text_of(n, Field::Name) {
                Err(e) => Err(e),
                Ok(directory) => match list_of(files, Field::Files) {
                    Err(e) => Err(e),
                    Ok(list) => files_of(list, list.len(), directory),
                },
            },
        },
        None => match field_of(info, "name"@, Field::Name) {
            Err(e) => Err(e),
            Ok(n) => match text_of(n, Field::Name) {
                Err(e) => Err(e),
                Ok(name) => match field_of(info, "length"@, Field::Length) {
                    Err(e) => Err(e),
                    Ok(l) => match size_of(l, Field::Length) {
                        Err(e) => Err(e),
                        Ok(size) => Ok(seq![FileView { path_to_file: seq![name], size: size }]),
                    },
                },
            },
        },
    }
}

/// The first text of one list of `announce-list`.
pub open spec fn tier_of(v: Value) -> Result<Seq<char>, ExtractError> {
    match list_of(v, Field::AnnounceList) {
        Err(e) => Err(e),
        Ok(tier) => if tier.len() == 0 {
            Err(ExtractError::MissingField(Field::AnnounceList))
        } else {
            text_of(tier[0], Field::AnnounceList)
        },
    }
}

/// The first texts of the first `n` lists of `announce-list`.
pub open spec fn tiers_of(list: Seq<Value>, n: nat) -> Result<Seq<Seq<char>>, ExtractError>
    decreases n,
{
    if n == 0 || n > list.len() {
        Ok(Seq::empty())
    } else {
        match tiers_of(list, (n - 1) as nat) {
            Err(e) => Err(e),
            Ok(tiers) => match tier_of(list[n - 1]) {
                Err(e) => Err(e),
                Ok(t) => Ok(tiers.push(t)),
            },
        }
    }
}

/// The additional trackers of a torrent, where it names any.
pub open spec fn announce_list_of(entries: Entries) -> Result<Option<Seq<Seq<char>>>, ExtractError> {
    match lookup(entries, "announce-list"@) {
        None => Ok(None),
        Some(v) => match list_of(v, Field::AnnounceList) {
            Err(e) => Err(e),
            Ok(list) => match tiers_of(list, list.len()) {
                Err(e) => Err(e),
                Ok(tiers) => Ok(Some(tiers)),
            },
        },
    }
}

/// The digests of the pieces: `bytes` cut into strings of 20.
pub open spec fn digests_of(bytes: Seq<u8>) -> Seq<Seq<u8>> {
    Seq::new(bytes.len() / 20, |i: int| bytes.subrange(20 * i, 20 * i + 20))
}

/// What a parsed metainfo file says of its torrent, or the first thing
/// that is wrong with it.
pub open spec fn descriptor_of(entries: Entries) -> Result<TorrentView, ExtractError> {
    match field_of(entries, "info"@, Field::Info) {
        Err(e) => Err(e),
        Ok(i) => match dict_of(i, Field::Info) {
            Err(e) => Err(e),
            Ok(info) => match field_of(info, "pieces"@, Field::Pieces) {
                Err(e) => Err(e),
                Ok(p) => match bytes_of(p, Field::Pieces) {
                    Err(e) => Err(e),
                    Ok(hashes) => match all_files_of(info) {
                        Err(e) => Err(e),
                        Ok(files) => match field_of(info, "piece length"@, Field::PieceLength) {
                            Err(e) => Err(e),
                            Ok(l) => match size_of(l, Field::PieceLength) {
                                Err(e) => Err(e),
                                Ok(piece_length) => if hashes.len() % 20 != 0 {
                                    Err(ExtractError::BadPiecesLength)
                                } else {
                                    match field_of(entries, "announce"@, Field::Announce) {
                                        Err(e) => Err(e),
                                        Ok(a) => match text_of(a, Field::Announce) {
                                            Err(e) => Err(e),
                                            Ok(announce) => match announce_list_of(entries) {
                                                Err(e) => Err(e),
                                                Ok(announce_list) => Ok(
                                                    TorrentView {
                                                        pieces: digests_of(hashes),
                                                        piece_length: piece_length,
                                                        files: files,
                                                        announce: announce,
                                                        announce_list: announce_list,
                                                    },
                                                ),
                                            },
                                        },
                                    }
                                },
                            },
                        },
                    },
                },
            },
        },
    }
}

/// Once an item is no text, no longer list of them is a list of texts.
pub proof fn lemma_texts_error_stays(items: Seq<Value>, n: nat, m: nat, before: Seq<Seq<char>>, field: Field)
    requires
        n <= m <= items.len(),
        texts_of(items, n, before, field) is Err,
    ensures
        texts_of(items, m, before, field) == texts_of(items, n, before, field),
    decreases m,
{
    if m > n {
        lemma_texts_error_stays(items, n, (m - 1) as nat, before, field);
    }
}

/// Once an entry of `files` is rejected, so is every longer list of them.
pub proof fn lemma_files_error_stays(list: Seq<Value>, n: nat, m: nat, directory: Seq<char>)
    requires
        n <= m <= list.len(),
        files_of(list, n, directory) is Err,
    ensures
        files_of(list, m, directory) == files_of(list, n, directory),
    decreases m,
{
    if m > n {
        lemma_files_error_stays(list, n, (m - 1) as nat, directory);
    }
}

/// Once a list of `announce-list` is rejected, so is every longer list of
/// them.
pub proof fn lemma_tiers_error_stays(list: Seq<Value>, n: nat, m: nat)
    requires
        n <= m <= list.len(),
        tiers_of(list, n) is Err,
    ensures
        tiers_of(list, m) == tiers_of(list, n),
    decreases m,
{
    if m > n {
        lemma_tiers_error_stays(list, n, (m - 1) as nat);
    }
}

fn field<'a>(d: &'a Dict, key: &str, f: Field) -> (r: Result<&'a Content, ExtractError>)
    ensures
        match r {
            Ok(c) => field_of(d@, key@, f) == Ok::<Value, ExtractError>(c@),
            Err(e) => field_of(d@, key@, f) == Err::<Value, ExtractError>(e),
        },
{
    match d.get(key) {
        Some(c) => Ok(c),
        None => Err(ExtractError::MissingField(f)),
    }
}

fn as_size(c: &Content, f: Field) -> (r: Result<usize, ExtractError>)
    ensures
        match r {
            Ok(n) => size_of(c@, f) == Ok::<nat, ExtractError>(n as nat),
            Err(e) => size_of(c@, f) == Err::<nat, ExtractError>(e),
        },
{
    match c.get_int() {
        None => Err(ExtractError::WrongTag(f)),
        Some(n) => {
            if *n < 0 || (*n as u64) > usize::MAX as u64 {
                Err(ExtractError::WrongTag(f))
            } else {
                Ok(*n as usize)
            }
        },
    }
}

fn as_text<'a>(c: &'a Content, f: Field) -> (r: Result<&'a String, ExtractError>)
    ensures
        match r {
            Ok(s) => text_of(c@, f) == Ok::<Seq<char>, ExtractError>(s@),
            Err(e) => text_of(c@, f) == Err::<Seq<char>, ExtractError>(e),
        },
{
    match c.get_str() {
        Some(s) => Ok(s),
        None => Err(ExtractError::WrongTag(f)),
    }
}

fn as_list<'a>(c: &'a Content, f: Field) -> (r: Result<&'a Vec<Content>, ExtractError>)
    ensures
        match r {
            Ok(items) => list_of(c@, f) == Ok::<Seq<Value>, ExtractError>(item_views(items@)),
            Err(e) => list_of(c@, f) == Err::<Seq<Value>, ExtractError>(e),
        },
{
    proof {
        lemma_content_views(*c);
    }
    match c.get_list() {
        Some(items) => Ok(items),
        None => Err(ExtractError::WrongTag(f)),
    }
}

fn as_dict<'a>(c: &'a Content, f: Field) -> (r: Result<&'a Dict, ExtractError>)
    ensures
        match r {
            Ok(d) => dict_of(c@, f) == Ok::<Entries, ExtractError>(d@),
            Err(e) => dict_of(c@, f) == Err::<Entries, ExtractError>(e),
        },
{
    proof {
        lemma_content_views(*c);
    }
    match c.get_dict() {
        Some(d) => Ok(d),
        None => Err(ExtractError::WrongTag(f)),
    }
}

fn as_bytes<'a>(c: &'a Content, f: Field) -> (r: Result<&'a Vec<u8>, ExtractError>)
    ensures
        match r {
            Ok(b) => bytes_of(c@, f) == Ok::<Seq<u8>, ExtractError>(b@),
            Err(e) => bytes_of(c@, f) == Err::<Seq<u8>, ExtractError>(e),
        },
{
    match c.get_bytes() {
        Some(b) => Ok(b),
        None => Err(ExtractError::WrongTag(f)),
    }
}

/// The path of a file: the directory, then the texts of `items`.
fn path_from(items: &Vec<Content>, directory: &String) -> (r: Result<Vec<String>, ExtractError>)
    ensures
        match r {
            Ok(path) => texts_of(item_views(items@), items@.len(), seq![directory@], Field::Path) == Ok::<
                Seq<Seq<char>>,
                ExtractError,
            >(texts(path@)),
            Err(e) => texts_of(item_views(items@), items@.len(), seq![directory@], Field::Path) == Err::<
                Seq<Seq<char>>,
                ExtractError,
            >(e),
        },
{
    let mut path_to_file: Vec<String> = Vec::new();
    path_to_file.push(directory.clone());
    let ghost views = item_views(items@);
    let ghost start = seq![directory@];
    assert(texts(path_to_file@) =~= start);
    let mut i: usize = 0;
    while i < items.len()
        invariant
            i <= items@.len(),
            views == item_views(items@),
            start == seq![directory@],
            texts_of(views, i as nat, start, Field::Path) == Ok::<Seq<Seq<char>>, ExtractError>(texts(path_to_file@)),
        decreases items@.len() - i,
    {
        assert(views[i as int] == items@[i as int]@);
        match as_text(&items[i], Field::Path) {
            Err(e) => {
                proof {
                    assert(texts_of(views, (i + 1) as nat, start, Field::Path) == Err::<
                        Seq<Seq<char>>,
                        ExtractError,
                    >(e));
                    lemma_texts_error_stays(views, (i + 1) as nat, views.len(), start, Field::Path);
                }
                return Err(e);
            },
            Ok(elem) => {
                let ghost before = texts(path_to_file@);
                path_to_file.push(elem.clone());
                assert(texts(path_to_file@) =~= before.push(elem@));
            },
        }
        i += 1;
    }
    Ok(path_to_file)
}

/// One entry of `files`.
fn file_from(file: &Content, directory: &String) -> (r: Result<File, ExtractError>)
    ensures
        match r {
            Ok(f) => file_of(file@, directory@) == Ok::<FileView, ExtractError>(f@),
            Err(e) => file_of(file@, directory@) == Err::<FileView, ExtractError>(e),
        },
{
    let entries = as_dict(file, Field::Files)?;
    let path = as_list(field(entries, "path", Field::Path)?, Field::Path)?;
    let path_to_file = path_from(path, directory)?;
    let size = as_size(field(entries, "length", Field::Length)?, Field::Length)?;
    Ok(File { path_to_file, size })
}

/// The entries of `files`.
fn files_from(list: &Vec<Content>, directory: &String) -> (r: Result<Vec<File>, ExtractError>)
    ensures
        match r {
            Ok(files) => files_of(item_views(list@), list@.len(), directory@) == Ok::<Seq<FileView>, ExtractError>(
                file_views(files@),
            ),
            Err(e) => files_of(item_views(list@), list@.len(), directory@) == Err::<Seq<FileView>, ExtractError>(e),
        },
{
    let mut files: Vec<File> = Vec::new();
    let ghost views = item_views(list@);
    assert(file_views(files@) =~= Seq::<FileView>::empty());
    let mut i: usize = 0;
    while i < list.len()
        invariant
            i <= list@.len(),
            views == item_views(list@),
            files_of(views, i as nat, directory@) == Ok::<Seq<FileView>, ExtractError>(file_views(files@)),
        decreases list@.len() - i,
    {
        assert(views[i as int] == list@[i as int]@);
        match file_from(&list[i], directory) {
            Err(e) => {
                proof {
                    assert(files_of(views, (i + 1) as nat, directory@) == Err::<Seq<FileView>, ExtractError>(e));
                    lemma_files_error_stays(views, (i + 1) as nat, views.len(), directory@);
                }
                return Err(e);
            },
            Ok(file) => {
                let ghost before = file_views(files@);
                files.push(file);
                assert(file_views(files@) =~= before.push(file@));
            },
        }
        i += 1;
    }
    Ok(files)
}

/// The files of a torrent.
fn all_files_from(info: &Dict) -> (r: Result<Vec<File>, ExtractError>)
    ensures
        match r {
            Ok(files) => all_files_of(info@) == Ok::<Seq<FileView>, ExtractError>(file_views(files@)),
            Err(e) => all_files_of(info@) == Err::<Seq<FileView>, ExtractError>(e),
        },
{
    match info.get("files") {
        Some(files_data) => {
            let directory = as_text(field(info, "name", Field::Name)?, Field::Name)?;
            let list = as_list(files_data, Field::Files)?;
            files_from(list, directory)
        },
        None => {
            let name = as_text(field(info, "name", Field::Name)?, Field::Name)?;
            let size = as_size(field(info, "length", Field::Length)?, Field::Length)?;
            let mut path_to_file: Vec<String> = Vec::new();
            path_to_file.push(name.clone());
            let mut files: Vec<File> = Vec::new();
            let file = File { path_to_file, size };
            assert(file@.path_to_file =~= seq![name@]);
            files.push(file);
            assert(file_views(files@) =~= seq![FileView { path_to_file: seq![name@], size: size as nat }]);
            Ok(files)
        },
    }
}

/// The additional trackers of a torrent, where it names any.
fn announce_list_from(torrent_data: &Dict) -> (r: Result<Option<Vec<String>>, ExtractError>)
    ensures
        match r {
            Ok(Some(list)) => announce_list_of(torrent_data@) == Ok::<Option<Seq<Seq<char>>>, ExtractError>(
                Some(texts(list@)),
            ),
            Ok(None) => announce_list_of(torrent_data@) == Ok::<Option<Seq<Seq<char>>>, ExtractError>(None),
            Err(e) => announce_list_of(torrent_data@) == Err::<Option<Seq<Seq<char>>>, ExtractError>(e),
        },
{
    match torrent_data.get("announce-list") {
        None => Ok(None),
        Some(content) => {
            let list = as_list(content, Field::AnnounceList)?;
            let ghost views = item_views(list@);
            let mut announce_list_vec: Vec<String> = Vec::new();
            assert(texts(announce_list_vec@) =~= Seq::<Seq<char>>::empty());
            let mut i: usize = 0;
            while i < list.len()
                invariant
                    i <= list@.len(),
                    views == item_views(list@),
                    announce_list_of(torrent_data@) == match tiers_of(views, views.len()) {
                        Err(e) => Err::<Option<Seq<Seq<char>>>, ExtractError>(e),
                        Ok(tiers) => Ok(Some(tiers)),
                    },
                    tiers_of(views, i as nat) == Ok::<Seq<Seq<char>>, ExtractError>(texts(announce_list_vec@)),
                decreases list@.len() - i,
            {
                assert(views[i as int] == list@[i as int]@);
                let tier = match as_list(&list[i], Field::AnnounceList) {
                    Ok(t) => t,
                    Err(e) => {
                        proof {
                            assert(tiers_of(views, (i + 1) as nat) == Err::<Seq<Seq<char>>, ExtractError>(e));
                            lemma_tiers_error_stays(views, (i + 1) as nat, views.len());
                        }
                        return Err(e);
                    },
                };
                if tier.len() == 0 {
                    proof {
                        assert(tiers_of(views, (i + 1) as nat) == Err::<Seq<Seq<char>>, ExtractError>(
                            ExtractError::MissingField(Field::AnnounceList),
                        ));
                        lemma_tiers_error_stays(views, (i + 1) as nat, views.len());
                    }
                    return Err(ExtractError::MissingField(Field::AnnounceList));
                }
                assert(item_views(tier@)[0] == tier@[0]@);
                match as_text(&tier[0], Field::AnnounceList) {
                    Err(e) => {
                        proof {
                            assert(tiers_of(views, (i + 1) as nat) == Err::<Seq<Seq<char>>, ExtractError>(e));
                            lemma_tiers_error_stays(views, (i + 1) as nat, views.len());
                        }
                        return Err(e);
                    },
                    Ok(first) => {
                        let ghost before = texts(announce_list_vec@);
                        announce_list_vec.push(first.clone());
                        assert(texts(announce_list_vec@) =~= before.push(first@));
                    },
                }
                i += 1;
            }
            Ok(Some(announce_list_vec))
        },
    }
}

/// Cuts the digests of the pieces into strings of 20 bytes.
fn digests_from(hashes: &Vec<u8>) -> (pieces: Vec<Vec<u8>>)
    ensures
        byte_strings(pieces@) == digests_of(hashes@),
{
    let mut pieces: Vec<Vec<u8>> = Vec::new();
    let count: usize = hashes.len() / 20;
    let mut i: usize = 0;
    while i < count
        invariant
            i <= count,
            count == hashes@.len() / 20,
            20 * count <= hashes@.len() <= usize::MAX,
            pieces@.len() == i,
            forall|j: int| 0 <= j < i ==> (#[trigger] pieces@[j])@ == hashes@.subrange(20 * j, 20 * j + 20),
        decreases count - i,
    {
        let hash = copy_range(hashes, 20 * i, 20 * i + 20);
        pieces.push(hash);
        i += 1;
    }
    assert(byte_strings(pieces@) =~= digests_of(hashes@));
    pieces
}

/// Takes the description of a torrent out of its parsed metainfo file.
pub fn extract_data(torrent_data: Dict) -> (r: Result<TorrentData, ExtractError>)
    ensures
        match r {
            Ok(t) => descriptor_of(torrent_data@) == Ok::<TorrentView, ExtractError>(t@) && t@.well_formed(),
            Err(e) => descriptor_of(torrent_data@) == Err::<TorrentView, ExtractError>(e),
        },
{
    let info = as_dict(field(&torrent_data, "info", Field::Info)?, Field::Info)?;
    let hashes = as_bytes(field(info, "pieces", Field::Pieces)?, Field::Pieces)?;
    let files = all_files_from(info)?;
    let piece_length = as_size(field(info, "piece length", Field::PieceLength)?, Field::PieceLength)?;
    if hashes.len() % 20 != 0 {
        return Err(ExtractError::BadPiecesLength);
    }
    let pieces = digests_from(hashes);
    let announce = as_text(field(&torrent_data, "announce", Field::Announce)?, Field::Announce)?.clone();
    let announce_list = announce_list_from(&torrent_data)?;
    Ok(TorrentData { pieces, piece_length, files, announce, announce_list })
}

} // verus!
