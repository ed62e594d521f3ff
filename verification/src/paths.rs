use vstd::prelude::*;
use vstd::string::StrSliceExecFns;
use vstd::string::StringExecFns;

verus! {

/// One path component appended below a base directory, with exactly one
/// separator between them.
pub open spec fn spec_join(base: Seq<char>, rel: Seq<char>) -> Seq<char> {
    if base.len() > 0 && base[base.len() - 1] == '/' {
        base + rel
    } else {
        base + seq!['/'] + rel
    }
}

/// Appends `rel` below `base`, inserting a separator unless `base` already
/// ends with one (so joining below the root does not double it).
pub fn path_join(base: &str, rel: &str) -> (r: String)
    ensures
        r@ == spec_join(base@, rel@),
{
    proof {
        reveal_strlit("/");
        assert("/"@ =~= seq!['/']);
    }
    let n: usize = base.unicode_len();
    let mut s = String::from_str(base);
    if n == 0 {
        s.append("/");
    } else if base.get_char(n - 1) != '/' {
        s.append("/");
    }
    s.append(rel);
    s
}

/// How a joined path is laid out: the base first, one separator just
/// before the suffix, and the suffix last.
pub proof fn lemma_join_parts(base: Seq<char>, rel: Seq<char>)
    ensures
        ({
            let j = spec_join(base, rel);
            &&& j.len() == (if base.len() > 0 && base[base.len() - 1] == '/' {
                base.len() + rel.len()
            } else {
                base.len() + 1 + rel.len()
            })
            &&& forall|i: int| 0 <= i < base.len() ==> j[i] == base[i]
            &&& forall|i: int| 0 <= i < rel.len() ==> j[j.len() - rel.len() + i] == rel[i]
            &&& j[j.len() - rel.len() - 1] == '/'
        }),
{
    let j = spec_join(base, rel);
    if base.len() > 0 && base[base.len() - 1] == '/' {
        assert forall|i: int| 0 <= i < rel.len() implies j[j.len() - rel.len() + i] == rel[i] by {
            assert((base + rel)[base.len() + i] == rel[i]);
        }
    } else {
        assert forall|i: int| 0 <= i < base.len() implies j[i] == base[i] by {
            assert((base + seq!['/'] + rel)[i] == base[i]);
        }
        assert forall|i: int| 0 <= i < rel.len() implies j[j.len() - rel.len() + i] == rel[i] by {
            assert((base + seq!['/'] + rel)[base.len() + 1 + i] == rel[i]);
        }
        assert((base + seq!['/'] + rel)[base.len() as int] == '/');
    }
}

/// Every character of a decimal rendering is an ASCII digit, and there is
/// at least one.
pub proof fn lemma_dec_digits_are_digits(n: nat)
    ensures
        dec_digits(n).len() >= 1,
        forall|i: int|
            0 <= i < dec_digits(n).len() ==> 48 <= #[trigger] dec_digits(n)[i] as int <= 57,
    decreases n,
{
    if n < 10 {
        assert(dec_digits(n)[0] == spec_digit_char(n as int));
    } else {
        lemma_dec_digits_are_digits(n / 10);
        assert forall|i: int|
            0 <= i < dec_digits(n).len() implies 48 <= #[trigger] dec_digits(n)[i] as int
            <= 57 by {
            if i < dec_digits(n / 10).len() {
                assert(dec_digits(n)[i] == dec_digits(n / 10)[i]);
            } else {
                assert(dec_digits(n)[i] == spec_digit_char((n % 10) as int));
            }
        }
    }
}

/// The index of the last separator strictly before position `i`, or -1.
pub open spec fn last_slash_before(s: Seq<char>, i: int) -> int
    decreases i,
{
    if i <= 0 {
        -1
    } else if s[i - 1] == '/' {
        i - 1
    } else {
        last_slash_before(s, i - 1)
    }
}

/// The parent directory of a path: the text before its last separator,
/// the root itself for a top-level entry, and nothing for the root or for
/// a bare name.
pub open spec fn spec_parent(s: Seq<char>) -> Option<Seq<char>> {
    let j = last_slash_before(s, s.len() as int);
    if j < 0 {
        None
    } else if j == 0 {
        if s.len() == 1 {
            None
        } else {
            Some(seq!['/'])
        }
    } else {
        Some(s.subrange(0, j))
    }
}

fn last_slash(path: &str) -> (r: Option<usize>)
    ensures
        match r {
            Some(j) => j < path@.len() && last_slash_before(path@, path@.len() as int) == j as int,
            None => last_slash_before(path@, path@.len() as int) == -1,
        },
{
    let n: usize = path.unicode_len();
    let mut i: usize = n;
    while i > 0
        invariant
            i <= n,
            n == path@.len(),
            last_slash_before(path@, n as int) == last_slash_before(path@, i as int),
        decreases i,
    {
        if path.get_char(i - 1) == '/' {
            return Some(i - 1);
        }
        i = i - 1;
    }
    None
}

/// The parent directory of `path`, or nothing once the walk has reached
/// the root or a bare name. The result is always strictly shorter, so an
/// ancestor walk terminates.
pub fn parent_dir(path: &str) -> (r: Option<String>)
    ensures
        match r {
            Some(p) => spec_parent(path@) == Some(p@) && p@.len() < path@.len(),
            None => spec_parent(path@) is None,
        },
{
    proof {
        reveal_strlit("/");
        assert("/"@ =~= seq!['/']);
    }
    match last_slash(path) {
        None => None,
        Some(j) => {
            if j == 0 {
                if path.unicode_len() == 1 {
                    None
                } else {
                    Some(String::from_str("/"))
                }
            } else {
                Some(String::from_str(path.substring_char(0, j)))
            }
        },
    }
}

pub open spec fn spec_digit_char(d: int) -> char {
    ((48 + d) as u8) as char
}

/// The decimal rendering of a number, most significant digit first.
pub open spec fn dec_digits(n: nat) -> Seq<char>
    decreases n,
{
    if n < 10 {
        seq![spec_digit_char(n as int)]
    } else {
        dec_digits(n / 10).push(spec_digit_char((n % 10) as int))
    }
}

pub(crate) fn digit_str(d: u64) -> (s: &'static str)
    requires
        d < 10,
    ensures
        s@ == seq![spec_digit_char(d as int)],
{
    proof {
        reveal_strlit("0");
        reveal_strlit("1");
        reveal_strlit("2");
        reveal_strlit("3");
        reveal_strlit("4");
        reveal_strlit("5");
        reveal_strlit("6");
        reveal_strlit("7");
        reveal_strlit("8");
        reveal_strlit("9");
        assert("0"@ =~= seq![spec_digit_char(0)]);
        assert("1"@ =~= seq![spec_digit_char(1)]);
        assert("2"@ =~= seq![spec_digit_char(2)]);
        assert("3"@ =~= seq![spec_digit_char(3)]);
        assert("4"@ =~= seq![spec_digit_char(4)]);
        assert("5"@ =~= seq![spec_digit_char(5)]);
        assert("6"@ =~= seq![spec_digit_char(6)]);
        assert("7"@ =~= seq![spec_digit_char(7)]);
        assert("8"@ =~= seq![spec_digit_char(8)]);
        assert("9"@ =~= seq![spec_digit_char(9)]);
    }
    if d == 0 {
        "0"
    } else if d == 1 {
        "1"
    } else if d == 2 {
        "2"
    } else if d == 3 {
        "3"
    } else if d == 4 {
        "4"
    } else if d == 5 {
        "5"
    } else if d == 6 {
        "6"
    } else if d == 7 {
        "7"
    } else if d == 8 {
        "8"
    } else {
        "9"
    }
}

/// Renders a timestamp (or any counter) in decimal, for naming an archive
/// snapshot directory.
pub fn u64_to_string(n: u64) -> (s: String)
    ensures
        s@ == dec_digits(n as nat),
    decreases n,
{
    if n < 10 {
        String::from_str(digit_str(n))
    } else {
        let mut s = u64_to_string(n / 10);
        s.append(digit_str(n % 10));
        proof {
            assert(dec_digits((n / 10) as nat).push(spec_digit_char((n % 10) as int)) =~= dec_digits(
                (n / 10) as nat,
            ) + seq![spec_digit_char((n % 10) as int)]);
        }
        s
    }
}

/// Whether two path or token texts are the same characters.
pub fn str_eq(a: &str, b: &str) -> (r: bool)
    ensures
        r == (a@ == b@),
{
    let sa = String::from_str(a);
    let sb = String::from_str(b);
    sa == sb
}

} // verus!
