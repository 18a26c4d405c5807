//! Decisions of the sending and receiving sides that surround the byte
//! streams: which of the chosen paths become transfer tasks, how a batch is
//! announced, how received entries map to places under the save directory.
use vstd::prelude::*;
use vstd::string::StringExecFns;
use crate::paths::{
    all_plain_names, file_name, has_no_dots, parts_of, path_components, plain_path_parts,
    plain_path_text, safe_join, safe_join_outcome, PathComponent, PathPart,
};
use crate::codec::{be_u32_bytes, fits_frame};
use crate::protocol::{
    encode_batch_header, encode_task_prefix, ENTRY_DIR, ENTRY_FILE, MODE_BATCH, MODE_FILE,
    MODE_FILE_TASK, MODE_FOLDER, MODE_FOLDER_TASK,
};
use crate::task_id::{task_id_bytes_of, task_id_hex_to_bytes};
use crate::task_id::{hex_text, task_id_bytes_from_words, task_id_from_words};
use crate::text::{decimal_text, append_decimal, push_char};
use crate::protocol::{entry_header_at, entry_header_bytes, lemma_entry_header_roundtrip, CHUNK_SIZE};
use crate::paths::{is_plain_name, render_parts, slash_joined, slashify, wire_relative};
use vstd::std_specs::iter::IteratorSpec;
use vstd::string::StringSliceAdditionalSpecFns;

verus! {

/// The positions among the first `exists.len()` paths that exist, in order.
pub open spec fn kept_indices(exists: Seq<bool>) -> Seq<int>
    decreases exists.len(),
{
    if exists.len() == 0 {
        seq![]
    } else {
        let prev = kept_indices(exists.drop_last());
        if exists.last() {
            prev.push(exists.len() - 1)
        } else {
            prev
        }
    }
}

/// The paths kept for transfer are existing ones, each once, in the order
/// given; nothing is kept only when no path exists.
pub proof fn lemma_kept_indices(exists: Seq<bool>)
    ensures
        forall|j: int|
            0 <= j < kept_indices(exists).len() ==> 0 <= #[trigger] kept_indices(exists)[j]
                < exists.len() && exists[kept_indices(exists)[j]],
        forall|j: int, k: int|
            0 <= j < k < kept_indices(exists).len() ==> kept_indices(exists)[j]
                < kept_indices(exists)[k],
        kept_indices(exists).len() <= exists.len(),
        (kept_indices(exists).len() == 0) <==> (forall|i: int| 0 <= i < exists.len() ==> !exists[i]),
    decreases exists.len(),
{
    if exists.len() > 0 {
        lemma_kept_indices(exists.drop_last());
        let prev = kept_indices(exists.drop_last());
        assert forall|i: int| 0 <= i < exists.len() - 1 implies exists.drop_last()[i] == exists[i] by {}
        if !exists.last() && prev.len() == 0 {
            assert forall|i: int| 0 <= i < exists.len() implies !exists[i] by {
                if i < exists.len() - 1 {
                    assert(exists.drop_last()[i] == exists[i]);
                }
            }
        }
    }
}

/// One transfer task to start: its id, the path to send and the name shown
/// for it.
#[derive(Debug)]
pub struct TaskSeed {
    pub task_id: String,
    pub path: String,
    pub name: String,
}

/// Why no transfer task could be made.
#[derive(Debug, Clone, Copy, PartialEq, Eq, Structural)]
pub enum SeedError {
    /// None of the chosen paths exists.
    NoValidPath,
}

impl SeedError {
    /// The text shown for the error.
    pub fn message(&self) -> (res: String)
        ensures
            res@ == "没有有效的文件路径"@,
    {
        "没有有效的文件路径".to_owned()
    }
}

/// Whether `name` is what is shown for `path` when the path is written from
/// plain names (which every platform reads alike): the last name, or empty
/// when there is none.
pub open spec fn shown_name(path: Seq<char>, name: Seq<char>) -> bool {
    forall|rooted: bool, names: Seq<Seq<char>>|
        all_plain_names(names) && path == #[trigger] plain_path_text(rooted, names) ==> name == (
        if names.len() > 0 {
            names.last()
        } else {
            Seq::<char>::empty()
        })
}

/// The name shown for a path: its last component when that is a name, else
/// empty (see `shown_name`).
fn display_name(path: &str) -> (res: String)
    ensures
        shown_name(path@, res@),
{
    let cs = path_components(path);
    let res = match file_name(&cs) {
        Some(n) => n,
        None => String::new(),
    };
    proof {
        assert forall|rooted: bool, names: Seq<Seq<char>>|
            all_plain_names(names) && path@ == #[trigger] plain_path_text(rooted, names) implies res@ == (
            if names.len() > 0 {
                names.last()
            } else {
                Seq::<char>::empty()
            }) by {
            let p = plain_path_parts(rooted, names);
            assert(parts_of(cs@) == p);
            if names.len() > 0 {
                assert(p.last() == PathPart::Normal(names.last()));
            } else if rooted {
                assert(p =~= seq![PathPart::RootDir]);
            } else {
                assert(p =~= Seq::<PathPart>::empty());
            }
        }
    }
    res
}

/// Turns the chosen paths into transfer tasks: one per path that exists
/// (`exists[i]` tells whether `paths[i]` does), in the order given, each with
/// the task id made from its pair of random words `words[i]` and the name
/// shown for its path (see `shown_name`). Fails when no path exists.
pub fn build_transfer_task_seeds(
    _addr: &str,
    paths: &Vec<String>,
    exists: &Vec<bool>,
    words: &Vec<(u64, u64)>,
) -> (res: Result<Vec<TaskSeed>, SeedError>)
    requires
        exists@.len() == paths@.len(),
        words@.len() == paths@.len(),
    ensures
        kept_indices(exists@).len() == 0 <==> res == Err::<Vec<TaskSeed>, SeedError>(
            SeedError::NoValidPath,
        ),
        res matches Ok(v) ==> {
            &&& v@.len() == kept_indices(exists@).len()
            &&& forall|j: int|
                0 <= j < v@.len() ==> {
                    let i = #[trigger] kept_indices(exists@)[j];
                    &&& v@[j].path@ == paths@[i]@
                    &&& v@[j].task_id@ == hex_text(
                        task_id_bytes_from_words(words@[i].0, words@[i].1),
                    )
                    &&& shown_name(paths@[i]@, v@[j].name@)
                }
        },
{
    let n = paths.len();
    let mut out: Vec<TaskSeed> = Vec::new();
    let mut i: usize = 0;
    while i < n
        invariant
            n == paths@.len(),
            exists@.len() == n,
            words@.len() == n,
            i <= n,
            out@.len() == kept_indices(exists@.take(i as int)).len(),
            forall|j: int|
                0 <= j < out@.len() ==> {
                    let k = #[trigger] kept_indices(exists@.take(i as int))[j];
                    &&& out@[j].path@ == paths@[k]@
                    &&& out@[j].task_id@ == hex_text(
                        task_id_bytes_from_words(words@[k].0, words@[k].1),
                    )
                    &&& shown_name(paths@[k]@, out@[j].name@)
                },
        decreases n - i,
    {
        let ghost before = out@;
        assert(exists@.take(i + 1).drop_last() =~= exists@.take(i as int));
        if exists[i] {
            let (a, b) = words[i];
            let seed = TaskSeed {
                task_id: task_id_from_words(a, b),
                path: paths[i].clone(),
                name: display_name(paths[i].as_str()),
            };
            out.push(seed);
            assert forall|j: int| 0 <= j < out@.len() implies {
                let k = #[trigger] kept_indices(exists@.take(i + 1))[j];
                &&& out@[j].path@ == paths@[k]@
                &&& out@[j].task_id@ == hex_text(
                    task_id_bytes_from_words(words@[k].0, words@[k].1),
                )
                &&& shown_name(paths@[k]@, out@[j].name@)
            } by {
                if j < before.len() {
                    assert(out@[j] == before[j]);
                    assert(kept_indices(exists@.take(i + 1))[j] == kept_indices(
                        exists@.take(i as int),
                    )[j]);
                }
            }
        } else {
            assert(kept_indices(exists@.take(i + 1)) == kept_indices(exists@.take(i as int)));
        }
        i = i + 1;
    }
    assert(exists@.take(n as int) =~= exists@);
    if out.len() == 0 {
        return Err(SeedError::NoValidPath);
    }
    Ok(out)
}

/// The id of the `index`-th entry (counted from zero) of the batch
/// `batch_id`: the batch id, a hyphen, and the entry's number counted from
/// one.
pub fn batch_sub_task_id(batch_id: &str, index: u32) -> (res: String)
    ensures
        res@ == batch_id@ + seq!['-'] + decimal_text(index as nat + 1),
{
    let mut s = batch_id.to_owned();
    push_char(&mut s, '-');
    let n: u64 = index as u64 + 1;
    append_decimal(&mut s, n);
    s
}

/// The part of a relative path before its first `/`, all of it when it has
/// none.
pub open spec fn top_level_text(s: Seq<char>) -> Seq<char>
    decreases s.len(),
{
    if s.len() == 0 || s[0] == '/' {
        seq![]
    } else {
        seq![s[0]] + top_level_text(s.drop_first())
    }
}

/// The top-level name is the text before the first `/`: a prefix of the
/// path with no `/` in it, followed by a `/` or by nothing.
pub proof fn lemma_top_level_text(s: Seq<char>)
    ensures
        top_level_text(s).len() <= s.len(),
        top_level_text(s) == s.take(top_level_text(s).len() as int),
        forall|i: int| 0 <= i < top_level_text(s).len() ==> #[trigger] top_level_text(s)[i] != '/',
        top_level_text(s).len() == s.len() || s[top_level_text(s).len() as int] == '/',
    decreases s.len(),
{
    if s.len() > 0 && s[0] != '/' {
        let r = s.drop_first();
        lemma_top_level_text(r);
        let t = top_level_text(s);
        assert(t == seq![s[0]] + top_level_text(r));
        assert(t =~= s.take(t.len() as int)) by {
            assert forall|i: int| 0 <= i < t.len() implies t[i] == s[i] by {
                if i > 0 {
                    assert(t[i] == top_level_text(r)[i - 1]);
                    assert(top_level_text(r)[i - 1] == r.take(top_level_text(r).len() as int)[i - 1]);
                }
            }
        }
        assert forall|i: int| 0 <= i < t.len() implies #[trigger] t[i] != '/' by {
            if i > 0 {
                assert(t[i] == top_level_text(r)[i - 1]);
            }
        }
    } else {
        assert(s.take(0) =~= Seq::<char>::empty());
    }
}

/// The first component of a relative path as it travels on the wire (see
/// `top_level_text`).
pub fn top_level_name(rel: &str) -> (res: String)
    ensures
        res@ == top_level_text(rel@),
{
    broadcast use {vstd::string::axiom_spec_iter, vstd::string::next_postcondition};

    let mut out = String::new();
    let mut it = rel.chars();
    let ghost mut i: int = 0;
    assert(rel@.skip(0) =~= rel@);
    assert(out@ + top_level_text(rel@) =~= top_level_text(rel@));
    loop
        invariant
            0 <= i <= rel@.len(),
            it.remaining() == rel@.skip(i),
            top_level_text(rel@) == out@ + top_level_text(rel@.skip(i)),
        decreases rel@.len() - i,
    {
        let ghost rest = rel@.skip(i);
        match it.next() {
            None => {
                assert(rest.len() == 0);
                assert(out@ + seq![] =~= out@);
                return out;
            },
            Some(c) => {
                assert(rest[0] == c);
                if c == '/' {
                    assert(out@ + seq![] =~= out@);
                    return out;
                }
                assert(rest.drop_first() =~= rel@.skip(i + 1));
                assert(out@.push(c) + top_level_text(rel@.skip(i + 1)) =~= out@ + (seq![c]
                    + top_level_text(rest.drop_first())));
                push_char(&mut out, c);
                proof {
                    i = i + 1;
                }
            },
        }
    }
}

/// How many bytes of a stream to read next when `remaining` are still due:
/// a chunk, or what is left when that is less.
pub fn next_chunk_len(remaining: u64) -> (res: usize)
    ensures
        res as int == if remaining < CHUNK_SIZE as u64 { remaining as int } else { CHUNK_SIZE as int },
{
    if remaining < CHUNK_SIZE as u64 {
        remaining as usize
    } else {
        CHUNK_SIZE
    }
}

/// What the receiver does with one entry of a folder transfer.
#[derive(Debug)]
pub enum EntryAction {
    /// Create this directory (and its parents).
    CreateDir(Vec<PathComponent>),
    /// Create this file (and its parent directories) and fill it with the
    /// entry's bytes.
    WriteFile(Vec<PathComponent>),
}

/// The place an action writes to.
pub open spec fn action_parts(a: EntryAction) -> Seq<PathPart> {
    match a {
        EntryAction::CreateDir(p) => parts_of(p@),
        EntryAction::WriteFile(p) => parts_of(p@),
    }
}

/// Why a received folder entry is refused.
#[derive(Debug)]
pub enum ReceiveError {
    /// The entry's relative path would leave the save directory.
    IllegalPath(String),
    /// The entry's kind byte is neither a file nor a directory.
    UnknownEntryKind(u8),
}

impl ReceiveError {
    /// The text shown for the error.
    pub fn message(&self) -> (res: String)
        ensures
            match self {
                ReceiveError::IllegalPath(rel) => res@ == "非法路径，已拒绝: "@ + rel@,
                ReceiveError::UnknownEntryKind(k) => res@ == "未知的条目类型: "@ + decimal_text(
                    *k as nat,
                ),
            },
    {
        match self {
            ReceiveError::IllegalPath(rel) => {
                let mut s = "非法路径，已拒绝: ".to_owned();
                s.append(rel.as_str());
                s
            },
            ReceiveError::UnknownEntryKind(k) => {
                let mut s = "未知的条目类型: ".to_owned();
                append_decimal(&mut s, *k as u64);
                s
            },
        }
    }
}

/// Decides what to do with one received folder entry of kind `kind` at the
/// relative path `rel_path`: the first entry's top-level name is kept in
/// `first_dir` (it names the folder in progress reports), the path is joined
/// onto `save_dir` without leaving it, and the kind picks a directory or a
/// file.
pub fn plan_folder_entry(
    save_dir: &str,
    kind: u8,
    rel_path: &str,
    first_dir: &mut Option<String>,
) -> (res: Result<EntryAction, ReceiveError>)
    ensures
        (*old(first_dir)) is None ==> ((*final(first_dir)) matches Some(t) && t@ == top_level_text(
            rel_path@,
        )),
        (*old(first_dir)) is Some ==> *final(first_dir) == *old(first_dir),
        res matches Ok(a) ==> has_no_dots(action_parts(a)),
        res matches Ok(EntryAction::CreateDir(_)) ==> kind == ENTRY_DIR,
        res matches Ok(EntryAction::WriteFile(_)) ==> kind == ENTRY_FILE,
        res matches Err(ReceiveError::IllegalPath(r)) ==> r@ == rel_path@,
        res matches Err(ReceiveError::UnknownEntryKind(k)) ==> k == kind,
        exists|out: Option<Seq<PathPart>>|
            #[trigger] safe_join_outcome(save_dir@, rel_path@, out) && match out {
                Some(p) => if kind == ENTRY_DIR || kind == ENTRY_FILE {
                    res matches Ok(a) && action_parts(a) == p
                } else {
                    res matches Err(ReceiveError::UnknownEntryKind(_))
                },
                None => res matches Err(ReceiveError::IllegalPath(_)),
            },
{
    if first_dir.is_none() {
        *first_dir = Some(top_level_name(rel_path));
    }
    let target = match safe_join(save_dir, rel_path) {
        Ok(t) => t,
        Err(_) => {
            return Err(ReceiveError::IllegalPath(rel_path.to_owned()));
        },
    };
    if kind == ENTRY_DIR {
        Ok(EntryAction::CreateDir(target))
    } else if kind == ENTRY_FILE {
        Ok(EntryAction::WriteFile(target))
    } else {
        Err(ReceiveError::UnknownEntryKind(kind))
    }
}

/// The name shown for a folder being received: the top-level name of its
/// first entry, or a generic word before any entry arrived.
pub fn folder_display_name(first_dir: &Option<String>) -> (res: String)
    ensures
        match first_dir {
            Some(t) => res@ == t@,
            None => res@ == "文件夹"@,
        },
{
    match first_dir {
        Some(t) => t.clone(),
        None => "文件夹".to_owned(),
    }
}

/// The bytes that open a single-path task transfer: the folder or file task
/// mode, then the 16 bytes of the task id read from its hexadecimal form.
pub fn task_send_prefix(is_dir: bool, task_id: &str) -> (res: Vec<u8>)
    requires
        task_id.spec_bytes().len() >= 32,
    ensures
        res@ == seq![if is_dir { MODE_FOLDER_TASK } else { MODE_FILE_TASK }] + task_id_bytes_of(
            task_id.spec_bytes(),
        ),
{
    let mode = if is_dir {
        MODE_FOLDER_TASK
    } else {
        MODE_FILE_TASK
    };
    let id = task_id_hex_to_bytes(task_id);
    encode_task_prefix(mode, &id)
}

/// What a batch sender writes before the entries, and the entries in order:
/// each path with the mode byte that announces it.
#[derive(Debug)]
pub struct BatchPlan {
    pub header: Vec<u8>,
    pub entries: Vec<(String, u8)>,
}

/// Plans a batch send of the chosen paths: the ones that exist
/// (`exists[i]`), in order, each announced as a folder when `is_dir[i]` and
/// as a file otherwise; the header is the batch mode and the entry count
/// (truncated to 32 bits, as the wire field is). Fails when no path exists.
pub fn plan_batch_send(paths: &Vec<String>, exists: &Vec<bool>, is_dir: &Vec<bool>) -> (res: Result<
    BatchPlan,
    SeedError,
>)
    requires
        exists@.len() == paths@.len(),
        is_dir@.len() == paths@.len(),
    ensures
        kept_indices(exists@).len() == 0 <==> res == Err::<BatchPlan, SeedError>(
            SeedError::NoValidPath,
        ),
        res matches Ok(plan) ==> {
            &&& plan.entries@.len() == kept_indices(exists@).len()
            &&& plan.header@ == seq![MODE_BATCH] + be_u32_bytes(plan.entries@.len() as u32)
            &&& forall|j: int|
                0 <= j < plan.entries@.len() ==> {
                    let i = #[trigger] kept_indices(exists@)[j];
                    &&& plan.entries@[j].0@ == paths@[i]@
                    &&& plan.entries@[j].1 == if is_dir@[i] { MODE_FOLDER } else { MODE_FILE }
                }
        },
{
    let n = paths.len();
    let mut out: Vec<(String, u8)> = Vec::new();
    let mut i: usize = 0;
    while i < n
        invariant
            n == paths@.len(),
            exists@.len() == n,
            is_dir@.len() == n,
            i <= n,
            out@.len() == kept_indices(exists@.take(i as int)).len(),
            forall|j: int|
                0 <= j < out@.len() ==> {
                    let k = #[trigger] kept_indices(exists@.take(i as int))[j];
                    &&& out@[j].0@ == paths@[k]@
                    &&& out@[j].1 == if is_dir@[k] { MODE_FOLDER } else { MODE_FILE }
                },
        decreases n - i,
    {
        let ghost before = out@;
        assert(exists@.take(i + 1).drop_last() =~= exists@.take(i as int));
        if exists[i] {
            let mode = if is_dir[i] {
                MODE_FOLDER
            } else {
                MODE_FILE
            };
            out.push((paths[i].clone(), mode));
            assert forall|j: int| 0 <= j < out@.len() implies {
                let k = #[trigger] kept_indices(exists@.take(i + 1))[j];
                &&& out@[j].0@ == paths@[k]@
                &&& out@[j].1 == if is_dir@[k] { MODE_FOLDER } else { MODE_FILE }
            } by {
                if j < before.len() {
                    assert(out@[j] == before[j]);
                    assert(kept_indices(exists@.take(i + 1))[j] == kept_indices(
                        exists@.take(i as int),
                    )[j]);
                }
            }
        } else {
            assert(kept_indices(exists@.take(i + 1)) == kept_indices(exists@.take(i as int)));
        }
        i = i + 1;
    }
    assert(exists@.take(n as int) =~= exists@);
    if out.len() == 0 {
        return Err(SeedError::NoValidPath);
    }
    let count: u32 = #[verifier::truncate] (out.len() as u32);
    let header = encode_batch_header(count);
    Ok(BatchPlan { header, entries: out })
}

proof fn lemma_render_names(names: Seq<Seq<char>>)
    ensures
        render_parts(plain_path_parts(false, names)) == slash_joined(names),
    decreases names.len(),
{
    let p = plain_path_parts(false, names);
    assert(p =~= names.map_values(|n: Seq<char>| PathPart::Normal(n)));
    if names.len() >= 2 {
        lemma_render_names(names.drop_last());
        assert(p.drop_last() =~= plain_path_parts(false, names.drop_last()));
        assert(p[p.len() - 2] == PathPart::Normal(names[names.len() - 2]));
        assert(p.last() == PathPart::Normal(names.last()));
    } else if names.len() == 1 {
        assert(p[0] == PathPart::Normal(names[0]));
    }
}

proof fn lemma_plain_text_has_no_backslash(names: Seq<Seq<char>>)
    requires
        all_plain_names(names),
    ensures
        slashify(slash_joined(names)) == slash_joined(names),
    decreases names.len(),
{
    let t = slash_joined(names);
    if names.len() >= 2 {
        let d = names.drop_last();
        assert(all_plain_names(d)) by {
            assert forall|i: int| 0 <= i < d.len() implies is_plain_name(#[trigger] d[i]) by {
                assert(d[i] == names[i]);
            }
        }
        lemma_plain_text_has_no_backslash(d);
        let u = slash_joined(d);
        assert(is_plain_name(names.last()));
        assert forall|i: int| 0 <= i < t.len() implies #[trigger] t[i] != '\\' by {
            if i < u.len() {
                assert(t[i] == u[i]);
                assert(slashify(u)[i] == u[i]);
            } else if i > u.len() {
                assert(t[i] == names.last()[i - u.len() - 1]);
            }
        }
    } else if names.len() == 1 {
        assert(is_plain_name(names[0]));
    }
    assert(slashify(t) =~= t);
}

/// A folder entry lands where it came from. Take a folder entry whose path
/// below the sent folder's parent is written from plain names, and a save
/// directory written from plain names. The sender puts that path on the
/// wire as the names joined by `/`; the receiver reads the entry header
/// back with the same kind and path; and the only place the receiver's plan
/// can give for it is the save directory followed by those names.
pub proof fn lemma_folder_entry_round_trip(
    kind: u8,
    base: Seq<PathPart>,
    rel: Seq<Seq<char>>,
    rest: Seq<u8>,
    rb: bool,
    save: Seq<Seq<char>>,
    out: Option<Seq<PathPart>>,
)
    requires
        all_plain_names(rel),
        all_plain_names(save),
        fits_frame(slash_joined(rel)),
        safe_join_outcome(plain_path_text(rb, save), slash_joined(rel), out),
    ensures
        wire_relative(base, base + plain_path_parts(false, rel)) == Some(slash_joined(rel)),
        entry_header_at(entry_header_bytes(kind, slash_joined(rel)) + rest, 0) == Ok::<
            (u8, Seq<char>, int),
            crate::codec::DecodeError,
        >((kind, slash_joined(rel), entry_header_bytes(kind, slash_joined(rel)).len() as int)),
        out == Some(plain_path_parts(rb, save + rel)),
{
    let path = base + plain_path_parts(false, rel);
    assert(path.subrange(0, base.len() as int) =~= base);
    assert(path.skip(base.len() as int) =~= plain_path_parts(false, rel));
    lemma_render_names(rel);
    lemma_plain_text_has_no_backslash(rel);
    lemma_entry_header_roundtrip(kind, slash_joined(rel), rest);
    assert(plain_path_text(false, rel) == slash_joined(rel));
    assert(plain_path_text(rb, save) == plain_path_text(rb, save));
}

// ---------- the order of a folder's entries ----------

/// Byte-wise lexicographic order (as `[u8]`, `str` and `OsStr` compare):
/// `a` is at most `b`.
pub open spec fn bytes_le(a: Seq<u8>, b: Seq<u8>) -> bool
    decreases a.len(),
{
    if a.len() == 0 {
        true
    } else if b.len() == 0 {
        false
    } else if a[0] != b[0] {
        a[0] < b[0]
    } else {
        bytes_le(a.drop_first(), b.drop_first())
    }
}

proof fn lemma_bytes_le_total(a: Seq<u8>, b: Seq<u8>)
    ensures
        bytes_le(a, b) || bytes_le(b, a),
    decreases a.len(),
{
    if a.len() > 0 && b.len() > 0 && a[0] == b[0] {
        lemma_bytes_le_total(a.drop_first(), b.drop_first());
    }
}

proof fn lemma_bytes_le_trans(a: Seq<u8>, b: Seq<u8>, c: Seq<u8>)
    requires
        bytes_le(a, b),
        bytes_le(b, c),
    ensures
        bytes_le(a, c),
    decreases a.len(),
{
    if a.len() > 0 && b.len() > 0 && c.len() > 0 && a[0] == b[0] && b[0] == c[0] {
        lemma_bytes_le_trans(a.drop_first(), b.drop_first(), c.drop_first());
    }
}

fn bytes_le_exec(a: &Vec<u8>, b: &Vec<u8>) -> (res: bool)
    ensures
        res == bytes_le(a@, b@),
{
    let mut i: usize = 0;
    assert(a@.skip(0) =~= a@);
    assert(b@.skip(0) =~= b@);
    while i < a.len() && i < b.len()
        invariant
            i <= a@.len(),
            i <= b@.len(),
            bytes_le(a@, b@) == bytes_le(a@.skip(i as int), b@.skip(i as int)),
        decreases a@.len() - i,
    {
        if a[i] != b[i] {
            return a[i] < b[i];
        }
        assert(a@.skip(i as int).drop_first() =~= a@.skip(i + 1));
        assert(b@.skip(i as int).drop_first() =~= b@.skip(i + 1));
        i = i + 1;
    }
    i == a.len()
}

/// The byte strings of a list.
pub open spec fn key_views(keys: Seq<Vec<u8>>) -> Seq<Seq<u8>> {
    Seq::new(keys.len(), |i: int| keys[i]@)
}

/// Indices into `keys`, each once, ordered by their keys: the order in
/// which a folder's entries are listed (as `PathBuf`s of one directory sort,
/// by the bytes of their names).
pub open spec fn is_sorted_order(keys: Seq<Seq<u8>>, order: Seq<usize>) -> bool {
    &&& order.len() == keys.len()
    &&& forall|i: int| 0 <= i < order.len() ==> #[trigger] order[i] < keys.len()
    &&& forall|i: int, j: int| 0 <= i < j < order.len() ==> order[i] != order[j]
    &&& forall|i: int, j: int|
        0 <= i < j < order.len() ==> bytes_le(keys[order[i] as int], keys[order[j] as int])
}

/// The order to list a directory's entries in, given the bytes of their
/// names (`OsStr::as_encoded_bytes`): an insertion sort of their indices
/// (see `is_sorted_order`).
pub fn sibling_order(keys: &Vec<Vec<u8>>) -> (res: Vec<usize>)
    ensures
        is_sorted_order(key_views(keys@), res@),
{
    let ghost ks = key_views(keys@);
    let mut res: Vec<usize> = Vec::new();
    let mut k: usize = 0;
    while k < keys.len()
        invariant
            ks == key_views(keys@),
            k <= keys@.len(),
            res@.len() == k,
            forall|i: int| 0 <= i < res@.len() ==> #[trigger] res@[i] < k,
            forall|i: int, j: int| 0 <= i < j < res@.len() ==> res@[i] != res@[j],
            forall|i: int, j: int|
                #![trigger res@[i], res@[j]]
                0 <= i < j < res@.len() ==> bytes_le(ks[res@[i] as int], ks[res@[j] as int]),
        decreases keys@.len() - k,
    {
        let mut pos: usize = 0;
        while pos < res.len() && bytes_le_exec(&keys[res[pos]], &keys[k])
            invariant
                ks == key_views(keys@),
                k < keys@.len(),
                pos <= res@.len(),
                forall|i: int| 0 <= i < res@.len() ==> #[trigger] res@[i] < k,
                forall|i: int| 0 <= i < pos ==> bytes_le(ks[#[trigger] res@[i] as int], ks[k as int]),
            decreases res@.len() - pos,
        {
            pos = pos + 1;
        }
        proof {
            if pos < res@.len() {
                lemma_bytes_le_total(ks[res@[pos as int] as int], ks[k as int]);
                assert forall|j: int| pos <= j < res@.len() implies bytes_le(ks[k as int], ks[#[trigger] res@[j] as int]) by {
                    if j > pos {
                        lemma_bytes_le_trans(ks[k as int], ks[res@[pos as int] as int], ks[res@[j] as int]);
                    }
                }
            }
        }
        let ghost before = res@;
        res.insert(pos, k);
        assert(res@ == before.insert(pos as int, k));
        assert forall|i: int, j: int| 0 <= i < j < res@.len() implies bytes_le(ks[res@[i] as int], ks[res@[j] as int]) by {
            if i < pos && j == pos {
            } else if i == pos && j > pos {
                assert(res@[j] == before[j - 1]);
            } else if i < pos && j > pos {
                assert(res@[j] == before[j - 1]);
            } else if i > pos {
                assert(res@[i] == before[i - 1]);
                assert(res@[j] == before[j - 1]);
            }
        }
        assert forall|i: int| 0 <= i < res@.len() implies #[trigger] res@[i] < k + 1 by {
            if i > pos {
                assert(res@[i] == before[i - 1]);
            }
        }
        assert forall|i: int, j: int| 0 <= i < j < res@.len() implies res@[i] != res@[j] by {
            if i > pos {
                assert(res@[i] == before[i - 1]);
                assert(res@[j] == before[j - 1]);
            } else if j > pos {
                assert(res@[j] == before[j - 1]);
            }
        }
        k = k + 1;
    }
    res
}

} // verus!
