//! Path values. A path leaves the document as it was written; a `~` at its
//! start is resolved only where the caller asks for it, against directories
//! that the caller hands in.

use vstd::prelude::*;
use vstd::slice::slice_subrange;

use crate::bytes::{
    append, find_byte, first_index_of, lemma_first_index_of, SLASH, TILDE,
};
use crate::value::Bytes;

verus! {

/// A path as it was written.
#[derive(Clone, Debug, PartialEq, Eq)]
pub struct Path<'a> {
    pub value: Bytes<'a>,
}

impl<'a> View for Path<'a> {
    type V = Seq<u8>;

    open spec fn view(&self) -> Seq<u8> {
        self.value@
    }
}

/// Why a path could not be resolved.
#[derive(Clone, Copy, Debug, PartialEq, Eq, Structural)]
pub enum Error {
    /// The path has no bytes.
    EmptyPath,
    /// The path begins with `~` and a user's name, and no home directory was
    /// given for that user.
    MissingUserHome,
}

/// `rest` below the directory `dir`: `rest` itself where it begins at the
/// root, else `dir`, one `/` where `dir` does not end in one, and `rest`.
pub open spec fn joined(dir: Seq<u8>, rest: Seq<u8>) -> Seq<u8> {
    if rest.len() > 0 && rest[0] == SLASH {
        rest
    } else if dir.len() == 0 || dir.last() == SLASH {
        dir + rest
    } else {
        dir + seq![SLASH] + rest
    }
}

/// The path that `path` stands for. One that does not begin with `~`, or
/// that holds no `/`, is itself. `~/rest` is `rest` below `base`. `~user/rest`
/// is `rest` below `home`, the home directory of that user.
pub open spec fn interpolated(path: Seq<u8>, base: Seq<u8>, home: Option<Seq<u8>>) -> Result<
    Seq<u8>,
    Error,
> {
    if path.len() == 0 {
        Err(Error::EmptyPath)
    } else if path[0] != TILDE {
        Ok(path)
    } else {
        match first_index_of(path, SLASH) {
            None => Ok(path),
            Some(slash) => {
                let rest = path.subrange(slash + 1, path.len() as int);
                if slash == 1 {
                    Ok(joined(base, rest))
                } else {
                    match home {
                        Some(home) => Ok(joined(home, rest)),
                        None => Err(Error::MissingUserHome),
                    }
                }
            },
        }
    }
}

/// Something of `path` is resolved: it begins with `~` and holds a `/`.
pub open spec fn is_home_relative(path: Seq<u8>) -> bool {
    path.len() > 0 && path[0] == TILDE && first_index_of(path, SLASH) is Some
}

/// `rest` below the directory `dir`.
pub fn join(dir: &[u8], rest: &[u8]) -> (r: Vec<u8>)
    ensures
        r@ == joined(dir@, rest@),
{
    let mut out: Vec<u8> = Vec::new();
    if rest.len() > 0 && rest[0] == SLASH {
        append(&mut out, rest);
        assert(out@ =~= rest@);
        return out;
    }
    append(&mut out, dir);
    if dir.len() > 0 && dir[dir.len() - 1] != SLASH {
        out.push(SLASH);
    }
    append(&mut out, rest);
    assert(out@ =~= joined(dir@, rest@));
    out
}

impl<'a> Path<'a> {
    /// Takes text without quotes as a path: nothing is resolved.
    pub fn decode(text: Bytes<'a>) -> (r: Path<'a>)
        ensures
            r.value == text,
    {
        Path { value: text }
    }

    /// The bytes of the path.
    pub fn as_slice(&self) -> (r: &[u8])
        ensures
            r@ == self@,
    {
        self.value.as_slice()
    }

    /// Resolves a `~` at the start of the path. `base` is the directory that
    /// `~/` stands for; `home` is the home directory of the user that is
    /// named behind `~`, where one is named. The result is a part of the
    /// path where nothing had to be resolved.
    pub fn interpolate<'b>(&'b self, base: &[u8], home: Option<&[u8]>) -> (r: Result<
        Bytes<'b>,
        Error,
    >)
        ensures
            match r {
                Ok(p) => interpolated(
                    self@,
                    base@,
                    match home {
                        Some(h) => Some(h@),
                        None => None,
                    },
                ) == Ok::<Seq<u8>, Error>(p@) && (p is Owned) == is_home_relative(self@),
                Err(e) => interpolated(
                    self@,
                    base@,
                    match home {
                        Some(h) => Some(h@),
                        None => None,
                    },
                ) == Err::<Seq<u8>, Error>(e),
            },
    {
        let path = self.value.as_slice();
        if path.len() == 0 {
            return Err(Error::EmptyPath);
        }
        if path[0] != TILDE {
            return Ok(Bytes::Borrowed(path));
        }
        proof {
            lemma_first_index_of(path@, SLASH);
        }
        match find_byte(path, SLASH) {
            None => Ok(Bytes::Borrowed(path)),
            Some(slash) => {
                let rest = slice_subrange(path, slash + 1, path.len());
                if slash == 1 {
                    Ok(Bytes::Owned(join(base, rest)))
                } else {
                    match home {
                        Some(home) => Ok(Bytes::Owned(join(home, rest))),
                        None => Err(Error::MissingUserHome),
                    }
                }
            },
        }
    }
}

/// `~/` and a relative path behind it is that path below the base
/// directory, whatever home directory is handed in beside it.
pub proof fn lemma_home_relative_path(rest: Seq<u8>, base: Seq<u8>, home: Option<Seq<u8>>)
    requires
        rest.len() == 0 || rest[0] != SLASH,
    ensures
        interpolated(seq![TILDE, SLASH] + rest, base, home) == Ok::<Seq<u8>, Error>(
            joined(base, rest),
        ),
        base.len() > 0 && base.last() != SLASH ==> joined(base, rest) == base + seq![SLASH] + rest,
{
    let path = seq![TILDE, SLASH] + rest;
    assert(path[0] == TILDE);
    assert(path[1] == SLASH);
    assert(crate::bytes::is_first_index_of(path, SLASH, 1));
    lemma_first_index_of(path, SLASH);
    assert(path.subrange(2, path.len() as int) =~= rest);
}

} // verus!
