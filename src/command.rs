//! Descriptions of outside programs to run: program, arguments, directory.
use vstd::prelude::*;
use vstd::string::*;

verus! {

/// The character of the digit `d`.
pub open spec fn digit_char(d: nat) -> char {
    if d == 0 { '0' } else if d == 1 { '1' } else if d == 2 { '2' } else if d == 3 { '3' }
    else if d == 4 { '4' } else if d == 5 { '5' } else if d == 6 { '6' } else if d == 7 { '7' }
    else if d == 8 { '8' } else { '9' }
}

/// The base-ten digits of `n`, most significant first, without leading
/// zeros.
pub open spec fn usize_text_of(n: nat) -> Seq<char>
    decreases n,
{
    if n < 10 {
        seq![digit_char(n)]
    } else {
        usize_text_of(n / 10).push(digit_char(n % 10))
    }
}

/// Relies on `usize`'s `Display`: the base-ten digits of `n`, no sign, no
/// padding.
#[verifier::external_body]
pub(crate) fn usize_text(n: usize) -> (r: String)
    ensures
        r@ == usize_text_of(n as nat),
{
    n.to_string()
}

/// `base`, a slash, then `name`.
pub open spec fn joined(base: Seq<char>, name: Seq<char>) -> Seq<char> {
    base + seq!['/'] + name
}

/// Joins a directory and a name with a slash.
pub fn join(base: &str, name: &str) -> (r: String)
    ensures
        r@ == joined(base@, name@),
{
    let mut r = base.to_string();
    r.append("/");
    r.append(name);
    proof {
        reveal_strlit("/");
    }
    r
}

/// Views of a list of strings.
pub open spec fn texts(v: Seq<String>) -> Seq<Seq<char>> {
    v.map_values(|s: String| s@)
}

/// One run of an outside program: the program, its arguments in order, and
/// the directory to run it in (the current one where absent).
#[derive(Debug, Clone)]
pub struct Requirements {
    pub binary: String,
    pub args: Vec<String>,
    pub current_dir: Option<String>,
}

impl Requirements {
    /// Program, arguments and directory as text.
    pub open spec fn spec_parts(&self) -> (Seq<char>, Seq<Seq<char>>, Option<Seq<char>>) {
        (
            self.binary@,
            texts(self.args@),
            match self.current_dir {
                Some(d) => Some(d@),
                None => None,
            },
        )
    }
}

} // verus!
