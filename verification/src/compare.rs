//! `compare`: which files against which ref, checked before anything is
//! read; and the arguments that hand each pair of copies to `meld`.

use vstd::prelude::*;

use crate::add::{join_path, join_spec};
use crate::commits::md::joined;
use crate::commits::view::push_join;
use crate::text::{chars_of, decimal, decimal_of, push_all, push_str, str_views, string_of, trim, trim_spec};

verus! {

/// Some entry of the file list is blank.
pub open spec fn has_blank(files: Seq<Seq<char>>) -> bool {
    exists|i: int| 0 <= i < files.len() && trim_spec(#[trigger] files[i]).len() == 0
}

/// The ref `compare` diffs against: at least one file, none blank, and
/// exactly one ref.
pub open spec fn compare_spec(files: Seq<Seq<char>>, refs: Seq<Seq<char>>) -> Result<Seq<char>, Seq<char>> {
    if files.len() == 0 {
        Err("compare needs at least one file: '-p/--path <FILE_LIST>'"@)
    } else if has_blank(files) {
        Err("bad file list '"@ + joined(files, ","@) + "'; want paths, e.g. 'a.rs,b.rs'"@)
    } else if refs.len() == 1 {
        Ok(refs[0])
    } else if refs.len() == 0 {
        Err("compare needs a ref: '-x/--reference <REF>' (or '--ref')"@)
    } else {
        Err("compare takes exactly one ref, got "@ + decimal(refs.len()) + ": '"@ + joined(refs, ", "@)
            + "'"@)
    }
}

/// Check `compare`'s files and ref: see `compare_spec`.
pub fn compare_target(files: &[String], refs: &[String]) -> (r: Result<String, String>)
    ensures
        match compare_spec(str_views(files@), str_views(refs@)) {
            Ok(x) => r matches Ok(y) && y@ == x,
            Err(e) => r matches Err(y) && y@ == e,
        },
{
    let ghost fv = str_views(files@);
    if files.len() == 0 {
        return Err(string_of(chars_of("compare needs at least one file: '-p/--path <FILE_LIST>'").as_slice()));
    }
    let mut i: usize = 0;
    while i < files.len()
        invariant
            i <= files.len(),
            fv == str_views(files@),
            forall|k: int| 0 <= k < i ==> trim_spec(#[trigger] fv[k]).len() > 0,
        decreases files.len() - i,
    {
        let t = trim(chars_of(files[i].as_str()).as_slice());
        if t.len() == 0 {
            assert(trim_spec(fv[i as int]).len() == 0);
            let mut e: Vec<char> = Vec::new();
            push_str(&mut e, "bad file list '");
            push_join(&mut e, files, ",");
            push_str(&mut e, "'; want paths, e.g. 'a.rs,b.rs'");
            return Err(string_of(e.as_slice()));
        }
        i = i + 1;
    }
    if refs.len() == 1 {
        return Ok(refs[0].clone());
    }
    if refs.len() == 0 {
        return Err(string_of(chars_of("compare needs a ref: '-x/--reference <REF>' (or '--ref')").as_slice()));
    }
    let mut e: Vec<char> = Vec::new();
    push_str(&mut e, "compare takes exactly one ref, got ");
    push_all(&mut e, decimal_of(refs.len()).as_slice());
    push_str(&mut e, ": '");
    push_join(&mut e, refs, ", ");
    push_str(&mut e, "'");
    Err(string_of(e.as_slice()))
}

/// The arguments that open each file in `meld` beside its copy at the ref:
/// `--diff`, the working copy under `cwd`, the extracted copy under `tmp`.
pub open spec fn meld_pairs_spec(cwd: Seq<char>, tmp: Seq<char>, files: Seq<Seq<char>>) -> Seq<Seq<char>>
    decreases files.len(),
{
    if files.len() == 0 {
        Seq::empty()
    } else {
        meld_pairs_spec(cwd, tmp, files.drop_last()) + seq![
            "--diff"@,
            join_spec(cwd, files.last()),
            join_spec(tmp, files.last()),
        ]
    }
}

/// `meld`'s arguments for `compare`: see `meld_pairs_spec`.
pub fn meld_pairs(cwd: &str, tmp: &str, files: &[String]) -> (r: Vec<String>)
    ensures
        str_views(r@) == meld_pairs_spec(cwd@, tmp@, str_views(files@)),
{
    let ghost fv = str_views(files@);
    let mut out: Vec<String> = Vec::new();
    let mut i: usize = 0;
    while i < files.len()
        invariant
            i <= files.len(),
            fv == str_views(files@),
            str_views(out@) == meld_pairs_spec(cwd@, tmp@, fv.take(i as int)),
        decreases files.len() - i,
    {
        let ghost before = str_views(out@);
        out.push(string_of(chars_of("--diff").as_slice()));
        out.push(join_path(cwd, files[i].as_str()));
        out.push(join_path(tmp, files[i].as_str()));
        assert(fv.take(i + 1).drop_last() =~= fv.take(i as int));
        assert(fv.take(i + 1).last() == files@[i as int]@);
        assert(str_views(out@) =~= meld_pairs_spec(cwd@, tmp@, fv.take(i + 1)));
        i = i + 1;
    }
    assert(fv.take(files.len() as int) =~= fv);
    out
}

} // verus!
