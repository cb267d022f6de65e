//! The shell's file commands run against the filesystem image: what each
//! one does to the image and what it prints to the terminal.
use crate::bytes::push_all;
use crate::editor::Editor;
use crate::fs::{
    count, find_from, is_used, name, name_at, payload_fits, read, read_spec, remove, size, size_at, tree_applied,
    used, count_used, dir, FsError, TreeOp, IMAGE_SIZE, MAX_FILES, MAX_FILE_SIZE, ROOT,
};
use crate::kernel::desktop::{digits_into, write_uint};
use crate::terminal::{print_spec, FileName, TermState, Terminal};
use vstd::prelude::*;
use vstd::string::StringSliceAdditionalSpecFns;

verus! {

/// Scrollback after printing each of `rows` in turn.
pub open spec fn print_rows(lines: Seq<Seq<u8>>, rows: Seq<Seq<u8>>) -> Seq<Seq<u8>>
    decreases rows.len(),
{
    if rows.len() == 0 {
        lines
    } else {
        print_rows(print_spec(lines, rows[0]), rows.drop_first())
    }
}

/// The terminal with `lines` as its scrollback and the rest as in `t`.
pub open spec fn with_lines(t: TermState, lines: Seq<Seq<u8>>) -> TermState {
    TermState { lines, ..t }
}

/// What the shell prints for a filesystem error.
pub open spec fn err_text(e: FsError) -> Seq<u8> {
    match e {
        FsError::NoSpace => "error: disk full".spec_bytes(),
        FsError::TooBig => "error: file too big".spec_bytes(),
        FsError::NameTooLong => "error: name too long".spec_bytes(),
        FsError::NotFound => "error: not found".spec_bytes(),
        FsError::EmptyName => "error: empty name".spec_bytes(),
        FsError::NotFormatted => "error: no filesystem".spec_bytes(),
    }
}

/// Print the message for `e`.
pub fn print_fs_err(term: &mut Terminal, e: FsError)
    requires
        old(term).wf(),
    ensures
        final(term).wf(),
        final(term)@ == with_lines(old(term)@, print_spec(old(term)@.lines, err_text(e))),
{
    let msg: &[u8] = match e {
        FsError::NoSpace => "error: disk full".as_bytes(),
        FsError::TooBig => "error: file too big".as_bytes(),
        FsError::NameTooLong => "error: name too long".as_bytes(),
        FsError::NotFound => "error: not found".as_bytes(),
        FsError::EmptyName => "error: empty name".as_bytes(),
        FsError::NotFormatted => "error: no filesystem".as_bytes(),
    };
    term.println(msg);
}

/// `prefix` then `name`, cut at 40 bytes.
pub open spec fn named_text(prefix: Seq<u8>, nm: Seq<u8>) -> Seq<u8> {
    let s = prefix + nm;
    if s.len() <= 40 { s } else { s.subrange(0, 40) }
}

/// Print `prefix` followed by `name` (at most 40 bytes in all).
pub fn print_named(term: &mut Terminal, prefix: &[u8], nm: &[u8])
    requires
        old(term).wf(),
    ensures
        final(term).wf(),
        final(term)@ == with_lines(old(term)@, print_spec(old(term)@.lines, named_text(prefix@, nm@))),
{
    let mut line: Vec<u8> = Vec::new();
    push_all(&mut line, prefix);
    push_all(&mut line, nm);
    if line.len() > 40 {
        line.truncate(40);
    }
    assert(line@ =~= named_text(prefix@, nm@));
    term.println(line.as_slice());
}

/// The first newline at or after `i`, or the end of `data`.
pub open spec fn nl_index(data: Seq<u8>, i: int) -> int
    decreases data.len() - i,
{
    if i >= data.len() {
        data.len() as int
    } else if data[i] == 10 {
        i
    } else {
        nl_index(data, i + 1)
    }
}

/// The lines of `data` from `s`: each newline ends one; text after the last
/// newline is one more line.
pub open spec fn lines_from(data: Seq<u8>, s: int) -> Seq<Seq<u8>>
    decreases data.len() - s,
{
    if s < 0 || s >= data.len() {
        Seq::empty()
    } else {
        let k = nl_index(data, s);
        if k < data.len() && s <= k {
            seq![data.subrange(s, k)] + lines_from(data, k + 1)
        } else {
            seq![data.subrange(s, data.len() as int)]
        }
    }
}

/// What `cat` prints: `file not found`, `(empty)` for an empty file, or
/// the file's lines.
pub open spec fn cat_spec(lines: Seq<Seq<u8>>, r: Option<Seq<u8>>) -> Seq<Seq<u8>> {
    match r {
        None => print_spec(lines, "file not found".spec_bytes()),
        Some(d) => if d.len() == 0 {
            print_spec(lines, "(empty)".spec_bytes())
        } else {
            print_rows(lines, lines_from(d, 0))
        },
    }
}

proof fn lemma_nl_index_bounds(data: Seq<u8>, i: int)
    requires
        0 <= i,
    ensures
        i <= nl_index(data, i) || i > data.len(),
        nl_index(data, i) <= data.len(),
        nl_index(data, i) < data.len() ==> data[nl_index(data, i)] == 10,
    decreases data.len() - i,
{
    if i < data.len() && data[i] != 10 {
        lemma_nl_index_bounds(data, i + 1);
    }
}

/// Print the top-level file `name` line by line.
pub fn fs_cat(term: &mut Terminal, img: &[u8], f: &FileName)
    requires
        old(term).wf(),
        img@.len() >= IMAGE_SIZE,
        forall|i: int| find_from(img@, ROOT, f@, 0) == Some(i) && !dir(img@, i) ==> payload_fits(img@, i),
    ensures
        final(term).wf(),
        final(term)@ == with_lines(old(term)@, cat_spec(old(term)@.lines, read_spec(img@, f@))),
{
    let data = match read(img, f.as_bytes()) {
        Some(d) => d,
        None => {
            term.println("file not found".as_bytes());
            return;
        },
    };
    if data.len() == 0 {
        term.println("(empty)".as_bytes());
        return;
    }
    let ghost goal = print_rows(old(term)@.lines, lines_from(data@, 0));
    let mut start: usize = 0;
    let mut i: usize = 0;
    while i < data.len()
        invariant
            term.wf(),
            term@.input == old(term)@.input,
            term@.caret == old(term)@.caret,
            start <= i <= data@.len(),
            nl_index(data@, start as int) == nl_index(data@, i as int),
            goal == print_rows(old(term)@.lines, lines_from(data@, 0)),
            print_rows(term@.lines, lines_from(data@, start as int)) == goal,
        decreases data@.len() - i,
    {
        if data[i] == 10 {
            proof {
                lemma_nl_index_bounds(data@, start as int);
                let row = data@.subrange(start as int, i as int);
                assert(lines_from(data@, start as int) =~= seq![row] + lines_from(data@, i + 1));
                assert((seq![row] + lines_from(data@, i + 1)).drop_first() =~= lines_from(data@, i + 1));
            }
            term.println(&data[start..i]);
            start = i + 1;
        }
        i += 1;
    }
    let ghost before = term@.lines;
    if start < data.len() {
        proof {
            lemma_nl_index_bounds(data@, start as int);
            let row = data@.subrange(start as int, data@.len() as int);
            assert(lines_from(data@, start as int) =~= seq![row]);
            assert(seq![row].drop_first() =~= Seq::<Seq<u8>>::empty());
            assert(print_rows(before, seq![row]) == print_rows(print_spec(before, row), Seq::<Seq<u8>>::empty()));
        }
        let n = data.len();
        term.println(&data[start..n]);
    } else {
        assert(lines_from(data@, start as int) =~= Seq::<Seq<u8>>::empty());
    }
}

/// The listing row for slot `i`: its name from column 0 and its size
/// right-aligned in columns 18 to 23, 28 columns in all.
pub open spec fn list_row(img: Seq<u8>, i: int) -> Seq<u8> {
    let nm = name(img, i);
    let base = Seq::new(28, |k: int| if k < nm.len() { nm[k] } else { 0x20u8 });
    digits_into(base, 24, 18, size(img, i) as nat)
}

/// The listing rows of the used slots from `i` on, in slot order.
pub open spec fn list_from(img: Seq<u8>, i: int) -> Seq<Seq<u8>>
    decreases MAX_FILES - i,
{
    if i < 0 || i >= MAX_FILES {
        Seq::empty()
    } else if used(img, i) {
        seq![list_row(img, i)] + list_from(img, i + 1)
    } else {
        list_from(img, i + 1)
    }
}

/// What `ls` prints: `(no files)`, or one row per stored record.
pub open spec fn list_spec(lines: Seq<Seq<u8>>, img: Seq<u8>) -> Seq<Seq<u8>> {
    if count_used(img) == 0 {
        print_spec(lines, "(no files)".spec_bytes())
    } else {
        print_rows(lines, list_from(img, 0))
    }
}

/// List every stored record with its size.
pub fn fs_list(term: &mut Terminal, img: &[u8])
    requires
        old(term).wf(),
        img@.len() >= IMAGE_SIZE,
    ensures
        final(term).wf(),
        final(term)@ == with_lines(old(term)@, list_spec(old(term)@.lines, img@)),
{
    if count(img) == 0 {
        term.println("(no files)".as_bytes());
        return;
    }
    let ghost goal = print_rows(old(term)@.lines, list_from(img@, 0));
    let mut i: usize = 0;
    while i < MAX_FILES
        invariant
            term.wf(),
            term@.input == old(term)@.input,
            term@.caret == old(term)@.caret,
            img@.len() >= IMAGE_SIZE,
            i <= MAX_FILES,
            goal == print_rows(old(term)@.lines, list_from(img@, 0)),
            print_rows(term@.lines, list_from(img@, i as int)) == goal,
        decreases MAX_FILES - i,
    {
        if is_used(img, i) {
            let nm = name_at(img, i);
            let mut line: Vec<u8> = vec![0x20u8; 28];
            let mut k: usize = 0;
            while k < nm.len()
                invariant
                    nm@ == name(img@, i as int),
                    nm@.len() <= 16,
                    k <= nm@.len(),
                    line@.len() == 28,
                    forall|j: int| 0 <= j < 28 ==> line@[j] == (if j < k { nm@[j] } else { 0x20u8 }),
                decreases nm@.len() - k,
            {
                line.set(k, nm[k]);
                k += 1;
            }
            let sz = size_at(img, i);
            proof {
                assert(line@ =~= Seq::new(28, |j: int| if j < nm@.len() { nm@[j] } else { 0x20u8 }));
            }
            write_uint(&mut line, 18, 6, sz as u32);
            proof {
                let rows = list_from(img@, i as int);
                assert(rows =~= seq![list_row(img@, i as int)] + list_from(img@, i + 1));
                assert(rows.drop_first() =~= list_from(img@, i + 1));
            }
            term.println(line.as_slice());
        }
        i += 1;
    }
    assert(list_from(img@, MAX_FILES as int) =~= Seq::<Seq<u8>>::empty());
}

/// What `rm` prints: `Removed <name>`, or the error.
pub open spec fn remove_text(found: bool, nm: Seq<u8>) -> Seq<u8> {
    if found {
        named_text("Removed ".spec_bytes(), nm)
    } else {
        err_text(FsError::NotFound)
    }
}

/// Delete the top-level record `name` (with everything under it) and say
/// so; when there is none, leave the image and print the error.
pub fn fs_remove(term: &mut Terminal, img: &mut [u8], f: &FileName) -> (r: Result<(), FsError>)
    requires
        old(term).wf(),
        old(img)@.len() >= IMAGE_SIZE,
    ensures
        final(term).wf(),
        final(term)@ == with_lines(
            old(term)@,
            print_spec(old(term)@.lines, remove_text(find_from(old(img)@, ROOT, f@, 0) is Some, f@)),
        ),
        match find_from(old(img)@, ROOT, f@, 0) {
            None => r == Err::<(), FsError>(FsError::NotFound) && final(img)@ == old(img)@,
            Some(i) => r is Ok && tree_applied(old(img)@, final(img)@, TreeOp::Purge, i) && !used(final(img)@, i),
        },
{
    let r = remove(img, f.as_bytes());
    match r {
        Ok(()) => print_named(term, "Removed ".as_bytes(), f.as_bytes()),
        Err(e) => print_fs_err(term, e),
    }
    r
}

/// The editor's lines joined by newlines: the first `k` lines, each
/// followed by a newline unless it is the last of all `lines`.
pub open spec fn joined_upto(lines: Seq<Seq<u8>>, k: int) -> Seq<u8>
    decreases k,
{
    if k <= 0 {
        Seq::empty()
    } else {
        joined_upto(lines, k - 1) + lines[k - 1] + (if k < lines.len() { seq![10u8] } else { Seq::empty() })
    }
}

/// `s` cut to at most one file's worth of bytes.
pub open spec fn file_cap(s: Seq<u8>) -> Seq<u8> {
    if s.len() <= MAX_FILE_SIZE { s } else { s.subrange(0, MAX_FILE_SIZE as int) }
}

proof fn lemma_cap_push(s: Seq<u8>, b: u8)
    ensures
        file_cap(s.push(b)) == (if file_cap(s).len() < MAX_FILE_SIZE { file_cap(s).push(b) } else { file_cap(s) }),
{
    if s.len() < MAX_FILE_SIZE {
        assert(file_cap(s) == s);
    } else {
        assert(s.push(b).subrange(0, MAX_FILE_SIZE as int) =~= s.subrange(0, MAX_FILE_SIZE as int));
    }
}

/// The editor's text as a file: its lines joined by newlines, at most
/// [`MAX_FILE_SIZE`] bytes.
pub fn serialize_editor(ed: &Editor) -> (out: Vec<u8>)
    ensures
        out@ == file_cap(joined_upto(ed@.lines, ed@.lines.len() as int)),
{
    let mut out: Vec<u8> = Vec::new();
    let rows = ed.rows();
    let mut i: usize = 0;
    while i < rows
        invariant
            rows == ed@.lines.len(),
            i <= rows,
            out@ == file_cap(joined_upto(ed@.lines, i as int)),
        decreases rows - i,
    {
        let line = ed.line(i);
        let ghost base = joined_upto(ed@.lines, i as int);
        let mut j: usize = 0;
        while j < line.len()
            invariant
                rows == ed@.lines.len(),
                i < rows,
                line@ == ed@.lines[i as int],
                j <= line@.len(),
                base == joined_upto(ed@.lines, i as int),
                out@ == file_cap(base + line@.subrange(0, j as int)),
            decreases line@.len() - j,
        {
            proof {
                lemma_cap_push(base + line@.subrange(0, j as int), line@[j as int]);
                assert((base + line@.subrange(0, j as int)).push(line@[j as int]) =~= base + line@.subrange(
                    0,
                    j + 1,
                ));
            }
            if out.len() < MAX_FILE_SIZE {
                out.push(line[j]);
            }
            j += 1;
        }
        proof {
            assert(line@.subrange(0, line@.len() as int) =~= line@);
            lemma_cap_push(base + line@, 10u8);
        }
        if i + 1 < rows && out.len() < MAX_FILE_SIZE {
            out.push(10);
        }
        proof {
            if i + 1 < rows {
                assert(joined_upto(ed@.lines, i + 1) =~= (base + line@).push(10u8));
            } else {
                assert(joined_upto(ed@.lines, i + 1) =~= base + line@);
            }
        }
        i += 1;
    }
    out
}

} // verus!
