//! Script locations: the extension setting, the file name of a command
//! script, and Unix path joining.

use vstd::prelude::*;
use crate::text::{
    chars_of, lemma_leading_run_bounded, lemma_leading_run_is, lemma_leading_run_prefix, leading_run,
    string_from_chars, trim_start_by,
};

verus! {

/// Whether `c` is a dot.
pub open spec fn is_dot(c: char) -> bool {
    c == '.'
}

/// The stored form of an extension setting: without its leading dots
/// (`str::trim_start_matches('.')`).
pub open spec fn normalized_extension(extension: Seq<char>) -> Seq<char> {
    trim_start_by(extension, |c: char| is_dot(c))
}

/// Joins a relative or absolute path onto a directory the way Unix
/// `Path::join` does: an absolute `name` replaces the directory, and a `/`
/// separates the two parts unless the directory is empty or already ends
/// with one.
pub open spec fn path_join(dir: Seq<char>, name: Seq<char>) -> Seq<char> {
    if name.len() > 0 && name[0] == '/' {
        name
    } else if dir.len() == 0 || dir.last() == '/' {
        dir + name
    } else {
        dir + seq!['/'] + name
    }
}

/// File name of the script for a command character: the character itself,
/// followed by `.` and the extension unless the extension is empty.
pub open spec fn script_file_name(command_char: char, extension: Seq<char>) -> Seq<char> {
    if extension.len() == 0 {
        seq![command_char]
    } else {
        seq![command_char, '.'] + extension
    }
}

/// `.hyper`
pub open spec fn script_dir_name() -> Seq<char> {
    seq!['.', 'h', 'y', 'p', 'e', 'r']
}

/// Normalizes the extension setting: `sh` and `.sh` both mean `sh`, and an
/// empty extension means extensionless script names.
pub fn normalize_extension(extension: &str) -> (normalized: String)
    ensures
        normalized@ == normalized_extension(extension@),
{
    let chars = chars_of(extension);
    let mut start: usize = 0;
    while start < chars.len() && chars[start] == '.'
        invariant
            start <= chars.len(),
            chars@ == extension@,
            forall|j: int| 0 <= j < start ==> is_dot(#[trigger] chars@[j]),
        decreases chars.len() - start,
    {
        start = start + 1;
    }
    proof {
        lemma_leading_run_is(chars@, |c: char| is_dot(c), start as int);
    }
    let mut rest: Vec<char> = Vec::new();
    let mut i: usize = start;
    while i < chars.len()
        invariant
            start <= i <= chars.len(),
            rest@ == chars@.subrange(start as int, i as int),
        decreases chars.len() - i,
    {
        rest.push(chars[i]);
        assert(chars@.subrange(start as int, i + 1) =~= chars@.subrange(start as int, i as int).push(
            chars@[i as int],
        ));
        i = i + 1;
    }
    assert(rest@ =~= normalized_extension(extension@));
    string_from_chars(&rest)
}

/// Normalizing an extension twice changes nothing more than normalizing it once.
pub proof fn lemma_normalize_extension_idempotent(extension: Seq<char>)
    ensures
        normalized_extension(normalized_extension(extension)) == normalized_extension(extension),
{
    let p = |c: char| is_dot(c);
    let once = normalized_extension(extension);
    let k = leading_run(extension, p);
    lemma_leading_run_bounded(extension, p);
    lemma_leading_run_prefix(extension, p);
    if once.len() > 0 {
        assert(once[0] == extension[k as int]);
    }
    lemma_leading_run_is(once, p, 0);
    assert(once.skip(0) =~= once);
}

/// Joins `name` onto `dir` as Unix `Path::join` does.
pub fn join_path(dir: &Vec<char>, name: &Vec<char>) -> (joined: Vec<char>)
    ensures
        joined@ == path_join(dir@, name@),
{
    let mut out: Vec<char> = Vec::new();
    if !(name.len() > 0 && name[0] == '/') {
        let mut i: usize = 0;
        while i < dir.len()
            invariant
                i <= dir.len(),
                out@ == dir@.take(i as int),
            decreases dir.len() - i,
        {
            out.push(dir[i]);
            assert(dir@.take(i + 1) =~= dir@.take(i as int).push(dir@[i as int]));
            i = i + 1;
        }
        assert(dir@.take(dir.len() as int) =~= dir@);
        if dir.len() > 0 && dir[dir.len() - 1] != '/' {
            out.push('/');
        }
    }
    let ghost base = out@;
    let mut j: usize = 0;
    while j < name.len()
        invariant
            j <= name.len(),
            out@ == base + name@.take(j as int),
        decreases name.len() - j,
    {
        out.push(name[j]);
        assert(base + name@.take(j + 1) =~= (base + name@.take(j as int)).push(name@[j as int]));
        j = j + 1;
    }
    assert(name@.take(name.len() as int) =~= name@);
    assert(out@ =~= path_join(dir@, name@));
    out
}

/// The script path for a command character: `<script_dir>/<char>.<extension>`,
/// or `<script_dir>/<char>` when the extension is empty.
pub fn script_path_for(script_dir: &str, command_char: char, extension: &str) -> (path: String)
    ensures
        path@ == path_join(script_dir@, script_file_name(command_char, extension@)),
{
    let dir = chars_of(script_dir);
    let ext = chars_of(extension);
    let mut file_name: Vec<char> = vec![command_char];
    if ext.len() > 0 {
        file_name.push('.');
        let mut i: usize = 0;
        while i < ext.len()
            invariant
                i <= ext.len(),
                file_name@ == seq![command_char, '.'] + ext@.take(i as int),
            decreases ext.len() - i,
        {
            file_name.push(ext[i]);
            assert(seq![command_char, '.'] + ext@.take(i + 1) =~= (seq![command_char, '.']
                + ext@.take(i as int)).push(ext@[i as int]));
            i = i + 1;
        }
        assert(ext@.take(ext.len() as int) =~= ext@);
    }
    assert(file_name@ =~= script_file_name(command_char, extension@));
    let joined = join_path(&dir, &file_name);
    string_from_chars(&joined)
}

/// The default script directory, `.hyper` in the given home directory.
pub fn default_script_dir(home: &str) -> (dir: String)
    ensures
        dir@ == path_join(home@, script_dir_name()),
{
    let home_chars = chars_of(home);
    let name = vec!['.', 'h', 'y', 'p', 'e', 'r'];
    assert(name@ == script_dir_name());
    let joined = join_path(&home_chars, &name);
    string_from_chars(&joined)
}

} // verus!
