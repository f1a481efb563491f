//! Names of the files and directories that screenshots are written to.
//!
//! Files are laid out as `{base}/dist/[subdir/]screenshot{n}.png`, where `n`
//! counts from 1 within each directory.

use vstd::prelude::*;

verus! {

/// The character of a decimal digit.
pub open spec fn digit(d: nat) -> char
    recommends
        d < 10,
{
    if d == 0 {
        '0'
    } else if d == 1 {
        '1'
    } else if d == 2 {
        '2'
    } else if d == 3 {
        '3'
    } else if d == 4 {
        '4'
    } else if d == 5 {
        '5'
    } else if d == 6 {
        '6'
    } else if d == 7 {
        '7'
    } else if d == 8 {
        '8'
    } else {
        '9'
    }
}

/// A number written in base ten, without sign or leading zeros.
pub open spec fn decimal(n: nat) -> Seq<char>
    decreases n,
{
    if n < 10 {
        seq![digit(n)]
    } else {
        decimal(n / 10).push(digit(n % 10))
    }
}

/// Name of the `n`-th screenshot of a directory: `screenshot{n}.png`.
pub open spec fn file_name_of(n: nat) -> Seq<char> {
    "screenshot"@ + decimal(n) + ".png"@
}

/// A path below `dir`: `{dir}/{name}`.
pub open spec fn joined(dir: Seq<char>, name: Seq<char>) -> Seq<char> {
    dir + "/"@ + name
}

/// Directory that holds all output below `base`: `{base}/dist`.
pub open spec fn dist_dir_of(base: Seq<char>) -> Seq<char> {
    joined(base, "dist"@)
}

fn digit_str(d: usize) -> (s: &'static str)
    requires
        d < 10,
    ensures
        s@ == seq![digit(d as nat)],
{
    proof {
        reveal_strlit("0");
        reveal_strlit("1");
        reveal_strlit("2");
        reveal_strlit("3");
        reveal_strlit("4");
        reveal_strlit("5");
        reveal_strlit("6");
        reveal_strlit("7");
        reveal_strlit("8");
        reveal_strlit("9");
    }
    let s = if d == 0 {
        "0"
    } else if d == 1 {
        "1"
    } else if d == 2 {
        "2"
    } else if d == 3 {
        "3"
    } else if d == 4 {
        "4"
    } else if d == 5 {
        "5"
    } else if d == 6 {
        "6"
    } else if d == 7 {
        "7"
    } else if d == 8 {
        "8"
    } else {
        "9"
    };
    assert(s@ =~= seq![digit(d as nat)]);
    s
}

fn push_decimal(out: &mut String, n: usize)
    ensures
        final(out)@ == old(out)@ + decimal(n as nat),
    decreases n,
{
    if n >= 10 {
        push_decimal(out, n / 10);
    }
    out.append(digit_str(n % 10));
    assert(out@ =~= old(out)@ + decimal(n as nat));
}

/// Name of the `n`-th screenshot of a directory.
pub fn file_name(n: usize) -> (name: String)
    ensures
        name@ == file_name_of(n as nat),
{
    let mut name = String::from_str("screenshot");
    push_decimal(&mut name, n);
    name.append(".png");
    name
}

/// Path of `name` below the directory `dir`.
pub fn join(dir: &str, name: &str) -> (path: String)
    ensures
        path@ == joined(dir@, name@),
{
    let mut path = String::from_str(dir);
    path.append("/");
    path.append(name);
    path
}

/// Directory that holds all output below `base`.
pub fn dist_dir(base: &str) -> (dir: String)
    ensures
        dir@ == dist_dir_of(base@),
{
    join(base, "dist")
}

/// The decimal form of a number has at least one digit, ends in the digit of
/// its units, and begins with the decimal form of its tens when there are
/// any.
proof fn lemma_decimal_shape(n: nat)
    ensures
        decimal(n).len() >= 1,
        decimal(n).last() == digit(n % 10),
        n < 10 ==> decimal(n).len() == 1,
        n >= 10 ==> decimal(n).len() >= 2 && decimal(n).drop_last() == decimal(n / 10),
    decreases n,
{
    if n >= 10 {
        lemma_decimal_shape(n / 10);
        assert(decimal(n).drop_last() =~= decimal(n / 10));
    }
}

/// Different numbers are written differently.
pub proof fn lemma_decimal_is_injective(m: nat, n: nat)
    requires
        decimal(m) == decimal(n),
    ensures
        m == n,
    decreases m,
{
    lemma_decimal_shape(m);
    lemma_decimal_shape(n);
    if m >= 10 {
        lemma_decimal_is_injective(m / 10, n / 10);
    }
}

/// Different numbers give different file names.
pub proof fn lemma_file_names_differ(m: nat, n: nat)
    requires
        m != n,
    ensures
        file_name_of(m) != file_name_of(n),
{
    if file_name_of(m) == file_name_of(n) {
        let head = "screenshot"@;
        let tail = ".png"@;
        let a = decimal(m);
        let b = decimal(n);
        assert((head + a + tail).len() == (head + b + tail).len());
        assert(a.len() == b.len());
        assert forall|i: int| 0 <= i < a.len() implies a[i] == b[i] by {
            assert((head + a + tail)[head.len() + i] == a[i]);
            assert((head + b + tail)[head.len() + i] == b[i]);
        }
        assert(a =~= b);
        lemma_decimal_is_injective(m, n);
    }
}

/// Different names give different paths below one directory.
pub proof fn lemma_joined_paths_differ(dir: Seq<char>, a: Seq<char>, b: Seq<char>)
    requires
        a != b,
    ensures
        joined(dir, a) != joined(dir, b),
{
    if joined(dir, a) == joined(dir, b) {
        let head = dir + "/"@;
        assert((head + a).len() == (head + b).len());
        assert forall|i: int| 0 <= i < a.len() implies a[i] == b[i] by {
            assert((head + a)[head.len() + i] == a[i]);
            assert((head + b)[head.len() + i] == b[i]);
        }
        assert(a =~= b);
    }
}

} // verus!
