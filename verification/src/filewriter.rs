use vstd::prelude::*;
use vstd::string::StringExecFns;
use crate::text::{decimal, push_decimal};
use crate::torrent_data_extractor::{total_size, size_of_first, texts, FileView, TorrentData};
use crate::tracker::left_to_download;

verus! {

/// Why the files of a torrent cannot be laid out over its pieces.
#[derive(Clone, Copy, Debug, PartialEq, Eq, Structural)]
pub enum ComposeError {
    /// The files hold more bytes than 64 bits count.
    TooLarge,
    /// There are bytes to lay out and the pieces have no length.
    ZeroPieceLength,
    /// The files hold more bytes than the pieces.
    NotEnoughPieces,
}

/// A run of bytes that goes from one piece into one file.
#[derive(Clone, Copy, Debug, PartialEq, Eq, Structural)]
pub struct Segment {
    /// The file, by its place in the descriptor.
    pub file: usize,
    /// Where in the file the run begins.
    pub offset: u64,
    /// The piece.
    pub piece: u64,
    /// Where in the piece the run begins.
    pub begin: u64,
    /// The bytes of the run.
    pub length: u64,
}

/// The name under which the piece `index` is kept in the directory `path`.
pub open spec fn piece_name(path: Seq<char>, index: nat) -> Seq<char> {
    path + "/."@ + decimal(index)
}

/// The first `n` components of a path, each followed by a slash.
pub open spec fn dirs_of(path: Seq<Seq<char>>, n: nat) -> Seq<char>
    decreases n,
{
    if n == 0 || n > path.len() {
        Seq::empty()
    } else {
        dirs_of(path, (n - 1) as nat) + path[n - 1] + "/"@
    }
}

/// Where a file goes: the directories to make for it, and its name with
/// them before it.
pub open spec fn location_of(path: Seq<Seq<char>>) -> (Seq<char>, Seq<char>) {
    (dirs_of(path, (path.len() - 1) as nat), dirs_of(path, (path.len() - 1) as nat) + path.last())
}

/// The smaller of two numbers.
pub open spec fn smaller(a: int, b: int) -> int {
    if a <= b {
        a
    } else {
        b
    }
}

/// The segments that lay the files from file `k` on over the pieces, after
/// the segments `done`: `offset` bytes of file `k` are laid out already,
/// and file `k` begins at byte `start` of the torrent. A segment ends where
/// its piece or its file ends.
pub open spec fn plan_from(
    piece_length: int,
    sizes: Seq<int>,
    k: int,
    offset: int,
    start: int,
    done: Seq<Segment>,
) -> Seq<Segment>
    decreases sizes.len() - k, (if 0 <= k < sizes.len() { sizes[k] - offset } else { 0 }),
{
    if k < 0 || k >= sizes.len() || piece_length <= 0 || offset < 0 {
        done
    } else if offset >= sizes[k] {
        plan_from(piece_length, sizes, k + 1, 0, start + sizes[k], done)
    } else {
        let at = start + offset;
        let length = smaller(piece_length - at % piece_length, sizes[k] - offset);
        plan_from(
            piece_length,
            sizes,
            k,
            offset + length,
            start,
            done.push(
                Segment {
                    file: k as usize,
                    offset: offset as u64,
                    piece: (at / piece_length) as u64,
                    begin: (at % piece_length) as u64,
                    length: length as u64,
                },
            ),
        )
    }
}

/// The sizes of the files.
pub open spec fn sizes_of(files: Seq<FileView>) -> Seq<int> {
    Seq::new(files.len(), |i: int| files[i].size as int)
}

/// What `compose_plan` makes of a torrent of `pieces` pieces.
pub open spec fn plan_of(piece_length: nat, pieces: nat, files: Seq<FileView>) -> Result<Seq<Segment>, ComposeError> {
    let total = total_size(files);
    if total > u64::MAX {
        Err(ComposeError::TooLarge)
    } else if total > 0 && piece_length == 0 {
        Err(ComposeError::ZeroPieceLength)
    } else if total > pieces * piece_length {
        Err(ComposeError::NotEnoughPieces)
    } else {
        Ok(plan_from(piece_length as int, sizes_of(files), 0, 0, 0, Seq::empty()))
    }
}

/// The bytes that the segments `segments` put into the file `file`.
pub open spec fn bytes_into(segments: Seq<Segment>, file: int) -> int
    decreases segments.len(),
{
    if segments.len() == 0 {
        0
    } else {
        bytes_into(segments.drop_last(), file) + if segments.last().file == file {
            segments.last().length as int
        } else {
            0
        }
    }
}

/// The name under which the piece `index` is kept in the directory `path`.
pub fn piece_file_name(path: &str, index: usize) -> (filename: String)
    ensures
        filename@ == piece_name(path@, index as nat),
{
    let mut filename = String::from_str(path);
    filename.append("/.");
    push_decimal(&mut filename, index as u128);
    filename
}

/// Where a file of the torrent goes: the directories to make for it, and
/// its name with them before it. A path without components names no file.
pub fn file_location(path_to_file: &Vec<String>) -> (r: Option<(String, String)>)
    ensures
        r is Some <==> path_to_file@.len() > 0,
        r matches Some((dirs, filename)) ==> (dirs@, filename@) == location_of(texts(path_to_file@)),
{
    if path_to_file.len() == 0 {
        return None;
    }
    let ghost path = texts(path_to_file@);
    let last: usize = path_to_file.len() - 1;
    let mut dirs = String::new();
    let mut i: usize = 0;
    while i < last
        invariant
            i <= last < path_to_file@.len(),
            path == texts(path_to_file@),
            dirs@ == dirs_of(path, i as nat),
        decreases last - i,
    {
        dirs.append(path_to_file[i].as_str());
        dirs.append("/");
        i += 1;
        assert(path[i - 1] == path_to_file@[i - 1]@);
    }
    let mut filename = dirs.clone();
    filename.append(path_to_file[last].as_str());
    assert(path.last() == path_to_file@[last as int]@);
    Some((dirs, filename))
}

/// The view of the result of `compose_plan`.
pub open spec fn plan_view(r: Result<Vec<Segment>, ComposeError>) -> Result<Seq<Segment>, ComposeError> {
    match r {
        Ok(segments) => Ok(segments@),
        Err(e) => Err(e),
    }
}

/// The first files are no larger than all of them.
pub proof fn lemma_size_of_first_grows(files: Seq<FileView>, n: nat, m: nat)
    requires
        n <= m <= files.len(),
    ensures
        size_of_first(files, n) <= size_of_first(files, m),
    decreases m,
{
    if m > n {
        lemma_size_of_first_grows(files, n, (m - 1) as nat);
    }
}

/// Lays the files of a torrent out over its pieces: for each file in the
/// order of the descriptor, the runs of bytes that make it up, each from
/// one piece, in the order of the pieces.
pub fn compose_plan(torrent_data: &TorrentData) -> (r: Result<Vec<Segment>, ComposeError>)
    ensures
        plan_view(r) == plan_of(torrent_data@.piece_length, torrent_data@.pieces.len(), torrent_data@.files),
{
    let total: u128 = left_to_download(torrent_data);
    if total > u64::MAX as u128 {
        return Err(ComposeError::TooLarge);
    }
    let piece_length: u64 = torrent_data.piece_length as u64;
    if total > 0 && piece_length == 0 {
        return Err(ComposeError::ZeroPieceLength);
    }
    let pieces: u128 = torrent_data.pieces.len() as u128;
    assert(pieces * piece_length <= u128::MAX) by (nonlinear_arith)
        requires
            pieces <= 0xffff_ffff_ffff_ffff,
            piece_length <= 0xffff_ffff_ffff_ffff,
    ;
    if total > pieces * (piece_length as u128) {
        return Err(ComposeError::NotEnoughPieces);
    }
    let mut segments: Vec<Segment> = Vec::new();
    if piece_length == 0 {
        return Ok(segments);
    }
    let ghost files = torrent_data@.files;
    let ghost sizes = sizes_of(files);
    let mut start: u64 = 0;
    let mut k: usize = 0;
    while k < torrent_data.files.len()
        invariant
            k <= torrent_data.files@.len(),
            files == torrent_data@.files,
            sizes == sizes_of(files),
            piece_length > 0,
            total == total_size(files),
            total <= u64::MAX,
            start == size_of_first(files, k as nat),
            plan_from(piece_length as int, sizes, 0, 0, 0, Seq::empty()) == plan_from(
                piece_length as int,
                sizes,
                k as int,
                0,
                start as int,
                segments@,
            ),
        decreases torrent_data.files@.len() - k,
    {
        let size: u64 = torrent_data.files[k].size as u64;
        proof {
            assert(files[k as int].size == size);
            assert(sizes[k as int] == size);
            lemma_size_of_first_grows(files, (k + 1) as nat, files.len());
        }
        let mut offset: u64 = 0;
        while offset < size
            invariant
                k < torrent_data.files@.len(),
                sizes == sizes_of(files),
                files == torrent_data@.files,
                sizes[k as int] == size,
                piece_length > 0,
                offset <= size,
                start + size <= u64::MAX,
                plan_from(piece_length as int, sizes, 0, 0, 0, Seq::empty()) == plan_from(
                    piece_length as int,
                    sizes,
                    k as int,
                    offset as int,
                    start as int,
                    segments@,
                ),
            decreases size - offset,
        {
            let at: u64 = start + offset;
            let room: u64 = piece_length - at % piece_length;
            let length: u64 = if room <= size - offset {
                room
            } else {
                size - offset
            };
            segments.push(Segment { file: k, offset, piece: at / piece_length, begin: at % piece_length, length });
            offset = offset + length;
        }
        start = start + size;
        k += 1;
    }
    Ok(segments)
}

/// The sizes of the files are sizes: none is negative, and each fits
/// 64 bits.
pub open spec fn are_sizes(sizes: Seq<int>) -> bool {
    sizes.len() <= usize::MAX && forall|i: int| 0 <= i < sizes.len() ==> 0 <= #[trigger] sizes[i] <= u64::MAX
}

/// The bytes of file `file` that are still to lay out when `offset` bytes
/// of file `k` are laid out and the files before it are done.
pub open spec fn still_to_lay(sizes: Seq<int>, k: int, offset: int, file: int) -> int {
    if file < 0 || file >= sizes.len() || file < k {
        0
    } else if file == k {
        sizes[file] - offset
    } else {
        sizes[file]
    }
}

/// The plan puts into every file what is still to lay out of it, beside
/// what the segments before put into it.
pub proof fn lemma_plan_fills(
    piece_length: int,
    sizes: Seq<int>,
    k: int,
    offset: int,
    start: int,
    done: Seq<Segment>,
    file: int,
)
    requires
        piece_length > 0,
        are_sizes(sizes),
        0 <= k <= sizes.len(),
        0 <= start,
        k < sizes.len() ==> 0 <= offset <= sizes[k],
        k == sizes.len() ==> offset == 0,
    ensures
        bytes_into(plan_from(piece_length, sizes, k, offset, start, done), file) == bytes_into(done, file)
            + still_to_lay(sizes, k, offset, file),
    decreases sizes.len() - k, (if 0 <= k < sizes.len() { sizes[k] - offset } else { 0 }),
{
    if k < sizes.len() {
        if offset >= sizes[k] {
            lemma_plan_fills(piece_length, sizes, k + 1, 0, start + sizes[k], done, file);
        } else {
            let at = start + offset;
            let length = smaller(piece_length - at % piece_length, sizes[k] - offset);
            let segment = Segment {
                file: k as usize,
                offset: offset as u64,
                piece: (at / piece_length) as u64,
                begin: (at % piece_length) as u64,
                length: length as u64,
            };
            assert(done.push(segment).drop_last() =~= done);
            lemma_plan_fills(piece_length, sizes, k, offset + length, start, done.push(segment), file);
        }
    }
}

/// The files that a plan assembles have exactly the sizes that the
/// descriptor gives: the segments of a file add up to its size.
pub proof fn lemma_plan_gives_each_file_its_size(piece_length: nat, pieces: nat, files: Seq<FileView>, file: int)
    requires
        files.len() <= usize::MAX,
        0 <= file < files.len(),
        plan_of(piece_length, pieces, files) is Ok,
        piece_length > 0,
    ensures
        bytes_into(plan_of(piece_length, pieces, files)->Ok_0, file) == files[file].size,
{
    let sizes = sizes_of(files);
    assert forall|i: int| 0 <= i < sizes.len() implies 0 <= #[trigger] sizes[i] <= u64::MAX by {
        lemma_size_bounded(files, i);
    }
    lemma_plan_fills(piece_length as int, sizes, 0, 0, 0, Seq::empty(), file);
}

/// No file is larger than all of them together.
pub proof fn lemma_size_bounded(files: Seq<FileView>, i: int)
    requires
        0 <= i < files.len(),
    ensures
        files[i].size <= total_size(files),
{
    lemma_size_of_first_grows(files, (i + 1) as nat, files.len());
}

/// The byte of the torrent at which file `k` begins: the sizes of the
/// files before it, added up.
pub open spec fn start_of(sizes: Seq<int>, k: int) -> int
    decreases k,
{
    if k <= 0 || k > sizes.len() {
        0
    } else {
        start_of(sizes, k - 1) + sizes[k - 1]
    }
}

/// Whether a segment is in place: it has bytes, lies within one piece and
/// within its file, and the bytes of the piece that it takes are those that
/// the file has there, the torrent being its files one after the other.
pub open spec fn in_place(s: Segment, piece_length: int, sizes: Seq<int>) -> bool {
    &&& s.file < sizes.len()
    &&& s.length > 0
    &&& s.begin + s.length <= piece_length
    &&& s.offset + s.length <= sizes[s.file as int]
    &&& s.piece * piece_length + s.begin == start_of(sizes, s.file as int) + s.offset
}

/// The sizes before file `k` are no more than all of them.
pub proof fn lemma_start_of_bounded(sizes: Seq<int>, k: int, m: int)
    requires
        are_sizes(sizes),
        0 <= k <= m <= sizes.len(),
    ensures
        0 <= start_of(sizes, k) <= start_of(sizes, m),
    decreases m,
{
    if m > k {
        lemma_start_of_bounded(sizes, k, m - 1);
    } else if k > 0 {
        lemma_start_of_bounded(sizes, k - 1, k - 1);
    }
}

/// Every segment of a plan is in place, if those before were.
pub proof fn lemma_plan_in_place(
    piece_length: int,
    sizes: Seq<int>,
    k: int,
    offset: int,
    done: Seq<Segment>,
    i: int,
)
    requires
        piece_length > 0,
        are_sizes(sizes),
        start_of(sizes, sizes.len() as int) <= u64::MAX,
        0 <= k <= sizes.len(),
        k < sizes.len() ==> 0 <= offset <= sizes[k],
        k == sizes.len() ==> offset == 0,
        forall|j: int| 0 <= j < done.len() ==> in_place(#[trigger] done[j], piece_length, sizes),
        0 <= i < plan_from(piece_length, sizes, k, offset, start_of(sizes, k), done).len(),
    ensures
        in_place(plan_from(piece_length, sizes, k, offset, start_of(sizes, k), done)[i], piece_length, sizes),
    decreases sizes.len() - k, (if 0 <= k < sizes.len() { sizes[k] - offset } else { 0 }),
{
    if k < sizes.len() {
        if offset >= sizes[k] {
            lemma_plan_in_place(piece_length, sizes, k + 1, 0, done, i);
        } else {
            let at = start_of(sizes, k) + offset;
            let length = smaller(piece_length - at % piece_length, sizes[k] - offset);
            let segment = Segment {
                file: k as usize,
                offset: offset as u64,
                piece: (at / piece_length) as u64,
                begin: (at % piece_length) as u64,
                length: length as u64,
            };
            lemma_start_of_bounded(sizes, k, k + 1);
            lemma_start_of_bounded(sizes, k + 1, sizes.len() as int);
            assert(0 <= at < u64::MAX);
            assert(0 <= at % piece_length < piece_length && 0 <= at / piece_length <= at && at == piece_length * (at
                / piece_length) + at % piece_length) by (nonlinear_arith)
                requires
                    0 <= at,
                    piece_length > 0,
            ;
            assert((at / piece_length) * piece_length == piece_length * (at / piece_length)) by (nonlinear_arith);
            assert(in_place(segment, piece_length, sizes));
            let more = done.push(segment);
            assert forall|j: int| 0 <= j < more.len() implies in_place(#[trigger] more[j], piece_length, sizes) by {
                if j < done.len() {
                    assert(more[j] == done[j]);
                }
            }
            lemma_plan_in_place(piece_length, sizes, k, offset + length, more, i);
        }
    }
}

/// The sizes of the first files as `start_of` adds them up are the sizes
/// of the first files of the descriptor.
pub proof fn lemma_start_of_sizes(files: Seq<FileView>, k: nat)
    requires
        k <= files.len(),
    ensures
        start_of(sizes_of(files), k as int) == size_of_first(files, k),
    decreases k,
{
    if k > 0 {
        lemma_start_of_sizes(files, (k - 1) as nat);
    }
}

/// Every segment of the plan of a torrent is in place: it takes bytes of
/// one piece that the torrent has, and puts them where its file has them.
pub proof fn lemma_plan_of_in_place(piece_length: nat, pieces: nat, files: Seq<FileView>, i: int)
    requires
        files.len() <= usize::MAX,
        piece_length > 0,
        plan_of(piece_length, pieces, files) matches Ok(plan) && 0 <= i < plan.len(),
    ensures
        in_place(plan_of(piece_length, pieces, files)->Ok_0[i], piece_length as int, sizes_of(files)),
        plan_of(piece_length, pieces, files)->Ok_0[i].piece < pieces,
{
    let sizes = sizes_of(files);
    assert forall|j: int| 0 <= j < sizes.len() implies 0 <= #[trigger] sizes[j] <= u64::MAX by {
        lemma_size_bounded(files, j);
    }
    lemma_start_of_sizes(files, files.len());
    lemma_plan_in_place(piece_length as int, sizes, 0, 0, Seq::empty(), i);
    let s = plan_of(piece_length, pieces, files)->Ok_0[i];
    lemma_start_of_sizes(files, s.file as nat);
    lemma_start_of_sizes(files, (s.file + 1) as nat);
    lemma_start_of_bounded(sizes, s.file + 1, sizes.len() as int);
    assert(s.piece * piece_length + s.begin + s.length <= pieces * piece_length);
    assert(s.piece < pieces) by (nonlinear_arith)
        requires
            s.piece * piece_length + s.begin + s.length <= pieces * piece_length,
            s.length > 0,
            s.begin >= 0,
            piece_length > 0,
    ;
}

} // verus!
