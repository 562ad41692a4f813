//! Where driver secrets are kept, and how they are wiped.
//!
//! Configurations that hold keys or passwords live in a private runtime
//! directory, readable by their owner alone, and are overwritten before they are
//! deleted.
use vstd::prelude::*;
use vstd::string::*;

use crate::text::owned;

verus! {

/// The private runtime directory.
pub const RUNTIME_DIR: &'static str = "/run/balansir";

/// The permissions of a secret: its owner may read and write it.
pub const SECRET_MODE: u32 = 0o600;

/// The path of a secret. A name that is itself an absolute path stays one.
pub open spec fn path_of(id: Seq<char>, name: Seq<char>) -> Seq<char> {
    let file = name + "-"@ + id + ".json"@;
    if name.len() > 0 && name[0] == '/' { file } else { RUNTIME_DIR@ + "/"@ + file }
}

/// The path of a secret, `/run/balansir/<name>-<id>.json`.
pub fn secret_path(id: &str, name: &str) -> (r: String)
    ensures
        r@ == path_of(id@, name@),
{
    let absolute = match first_char(name) {
        Some(c) => c == '/',
        None => false,
    };
    let mut file = owned(name);
    file.append("-");
    file.append(id);
    file.append(".json");
    if absolute {
        return file;
    }
    let mut s = owned(RUNTIME_DIR);
    s.append("/");
    s.append(file.as_str());
    s
}

fn first_char(s: &str) -> (r: Option<char>)
    ensures
        r == if s@.len() > 0 { Some(s@[0]) } else { None },
{
    let v = crate::text::chars_of(s);
    if v.len() > 0 {
        Some(v[0])
    } else {
        None
    }
}

/// A file that has to be written.
#[derive(Debug)]
pub struct SecretFile {
    pub path: String,
    pub contents: Vec<u8>,
    pub mode: u32,
}

/// The file that a secret goes to: where it is, what it holds, and the
/// permissions that it gets.
pub fn write_secret(id: &str, name: &str, contents: &[u8]) -> (r: SecretFile)
    ensures
        r.path@ == path_of(id@, name@),
        r.contents@ == contents@,
        r.mode == SECRET_MODE,
{
    SecretFile { path: secret_path(id, name), contents: vstd::slice::slice_to_vec(contents), mode: SECRET_MODE }
}

/// A step in the removal of a secret.
#[derive(Debug)]
pub enum RemovalStep {
    /// Replace what the file holds.
    Overwrite(Vec<u8>),
    Delete,
}

/// Whether a step replaces what a file holds with `len` zeros.
pub open spec fn zeroes(step: RemovalStep, len: nat) -> bool {
    step matches RemovalStep::Overwrite(b) && b@.len() == len && forall|i: int| 0 <= i < len ==> b@[i] == 0
}

/// The steps that remove a secret, given its length where it is known. What it
/// holds is overwritten and cut before the file is deleted.
pub fn remove_secret(len: Option<usize>) -> (r: Vec<RemovalStep>)
    ensures
        r@.len() > 0,
        r@.last() == RemovalStep::Delete,
        len matches Some(n) ==> (n > 0 ==> r@.len() == 3 && zeroes(r@[0], n as nat) && zeroes(r@[1], 0)),
        len is None || len == Some(0usize) ==> r@.len() == 1,
{
    let mut out: Vec<RemovalStep> = Vec::new();
    if let Some(n) = len {
        if n > 0 {
            let mut zeros: Vec<u8> = Vec::new();
            while zeros.len() < n
                invariant
                    zeros@.len() <= n,
                    forall|i: int| 0 <= i < zeros@.len() ==> zeros@[i] == 0,
                decreases n - zeros.len(),
            {
                zeros.push(0);
            }
            out.push(RemovalStep::Overwrite(zeros));
            out.push(RemovalStep::Overwrite(Vec::new()));
        }
    }
    out.push(RemovalStep::Delete);
    out
}

/// A secret stands in the private runtime directory wherever its name is not
/// itself an absolute path.
pub proof fn secrets_are_private(id: Seq<char>, name: Seq<char>)
    requires
        name.len() == 0 || name[0] != '/',
    ensures
        crate::text::begins_with(path_of(id, name), RUNTIME_DIR@ + "/"@),
{
    let dir = RUNTIME_DIR@ + "/"@;
    assert(path_of(id, name).take(dir.len() as int) =~= dir);
}

/// A secret lies in the runtime directory under its name and its id, unless its
/// name is a path of its own. Only its owner may read or write it.
pub proof fn where_secrets_lie(id: Seq<char>, name: Seq<char>)
    ensures
        name.len() > 0 && name[0] == '/' ==> path_of(id, name) == name + "-"@ + id + ".json"@,
        name.len() == 0 || name[0] != '/' ==> path_of(id, name) == "/run/balansir"@ + "/"@ + (name + "-"@ + id
            + ".json"@),
        SECRET_MODE == 384,
{
}

/// Overwriting leaves nothing but zeros, as many as there were bytes.
pub proof fn overwriting_leaves_zeros(step: RemovalStep, len: nat, i: int)
    requires
        zeroes(step, len),
        0 <= i < len,
    ensures
        step matches RemovalStep::Overwrite(b) && b@.len() == len && b@[i] == 0,
{
}

} // verus!
