use vstd::prelude::*;
use vstd::string::StrSliceExecFns;
use vstd::string::StringExecFns;

verus! {

/// The compiler dialects whose flag syntax the resolver can emit. Gcc is
/// treated like Clang when arguments are generated.
#[derive(Debug, Clone, Copy, PartialEq, Eq, Structural)]
pub enum Compiler {
    Clang,
    Gcc,
    Msvc,
}

/// The code point a character folds to when ASCII case is ignored: an ASCII
/// capital letter folds to its small form, everything else stays itself.
pub open spec fn fold_case(c: char) -> u32 {
    if 'A' <= c && c <= 'Z' {
        (c as u32 + 32) as u32
    } else {
        c as u32
    }
}

/// Two character sequences are equal once ASCII case is ignored.
pub open spec fn eq_ignore_case(a: Seq<char>, b: Seq<char>) -> bool {
    a.len() == b.len() && forall|i: int| 0 <= i < a.len() ==> fold_case(a[i]) == fold_case(b[i])
}

/// Compares two strings with ASCII case ignored.
fn str_eq_ignore_case(a: &str, b: &str) -> (r: bool)
    ensures
        r == eq_ignore_case(a@, b@),
{
    let alen = a.unicode_len();
    let blen = b.unicode_len();
    if alen != blen {
        return false;
    }
    let mut i: usize = 0;
    while i < alen
        invariant
            alen == a@.len(),
            blen == b@.len(),
            alen == blen,
            i <= alen,
            forall|j: int| 0 <= j < i ==> fold_case(a@[j]) == fold_case(b@[j]),
        decreases alen - i,
    {
        let ca = a.get_char(i);
        let cb = b.get_char(i);
        let fa: u32 = if 'A' <= ca && ca <= 'Z' {
            ca as u32 + 32
        } else {
            ca as u32
        };
        let fb: u32 = if 'A' <= cb && cb <= 'Z' {
            cb as u32 + 32
        } else {
            cb as u32
        };
        if fa != fb {
            return false;
        }
        i = i + 1;
    }
    true
}

impl Compiler {
    /// Parses a dialect name, ASCII case-insensitively: `"clang"`, `"gcc"`
    /// and `"msvc"` are the recognized tags; any other name is rejected with
    /// a message that carries the offending name.
    pub fn from_str(s: &str) -> (r: Result<Compiler, String>)
        ensures
            (r == Ok::<Compiler, String>(Compiler::Clang)) == eq_ignore_case(s@, "clang"@),
            (r == Ok::<Compiler, String>(Compiler::Gcc)) == eq_ignore_case(s@, "gcc"@),
            (r == Ok::<Compiler, String>(Compiler::Msvc)) == eq_ignore_case(s@, "msvc"@),
            (r is Err) == (!eq_ignore_case(s@, "clang"@) && !eq_ignore_case(s@, "gcc"@)
                && !eq_ignore_case(s@, "msvc"@)),
            r is Err ==> (r->Err_0)@ == "Unsupported compiler: "@ + s@,
    {
        proof {
            reveal_strlit("clang");
            reveal_strlit("gcc");
            reveal_strlit("msvc");
        }
        if str_eq_ignore_case(s, "clang") {
            Ok(Compiler::Clang)
        } else if str_eq_ignore_case(s, "gcc") {
            Ok(Compiler::Gcc)
        } else if str_eq_ignore_case(s, "msvc") {
            Ok(Compiler::Msvc)
        } else {
            Err("Unsupported compiler: ".to_owned().concat(s))
        }
    }
}

} // verus!
