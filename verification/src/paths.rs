//! The path resolver: joins the output directory with a destination path,
//! rejecting absolute destinations so an annotation cannot name a location
//! outside the output tree by starting at the filesystem root.

use vstd::prelude::*;

verus! {

/// A destination is absolute when it starts with the path separator.
pub open spec fn spec_is_absolute(f: Seq<char>) -> bool {
    f.len() > 0 && f[0] == '/'
}

/// The lexical join of the output directory and a relative destination: a
/// separator is inserted unless the directory is empty or already ends
/// with one. Purely lexical: no normalization, `..` segments pass through.
pub open spec fn spec_join(d: Seq<char>, f: Seq<char>) -> Seq<char> {
    if d.len() == 0 {
        f
    } else if d.last() == '/' {
        d + f
    } else {
        d + seq!['/'] + f
    }
}

/// Resolves a destination against the output directory: an absolute
/// destination is refused, any other is joined lexically under `dir`.
/// (A destination containing `..` segments is not rejected; the join does
/// not normalize them.)
pub fn merge_paths(dir: &String, file: &String) -> (r: Result<String, String>)
    ensures
        spec_is_absolute(file@) <==> r is Err,
        r matches Err(e) ==> e@ == "file is absolute"@,
        r matches Ok(p) ==> p@ == spec_join(dir@, file@),
{
    let fl = file.as_str().unicode_len();
    if fl > 0 && file.as_str().get_char(0) == '/' {
        return Err("file is absolute".to_owned());
    }
    let dl = dir.as_str().unicode_len();
    if dl == 0 {
        return Ok(file.clone());
    }
    let mut out = dir.clone();
    if dir.as_str().get_char(dl - 1) == '/' {
        out.append(file.as_str());
        Ok(out)
    } else {
        proof {
            reveal_strlit("/");
        }
        out.append("/");
        out.append(file.as_str());
        proof {
            assert(out@ =~= dir@ + seq!['/'] + file@);
        }
        Ok(out)
    }
}

} // verus!
