//! The few things this library does with text.

use vstd::prelude::*;
use vstd::string::*;

verus! {

/// The decimal digits of a number.
pub open spec fn digits(n: nat) -> Seq<char>
    decreases n,
{
    if n < 10 {
        seq![digit_char(n)]
    } else {
        digits(n / 10).push(digit_char(n % 10))
    }
}

pub open spec fn digit_char(d: nat) -> char {
    (48 + d) as char
}

/// A signed number as it is written out.
pub open spec fn signed_digits(n: int) -> Seq<char> {
    if n < 0 {
        "-"@ + digits((-n) as nat)
    } else {
        digits(n as nat)
    }
}

fn digit_text(d: u64) -> (s: &'static str)
    requires
        d < 10,
    ensures
        s@ == seq![digit_char(d as nat)],
{
    proof {
        reveal_strlit("0");
        reveal_strlit("1");
        reveal_strlit("2");
        reveal_strlit("3");
        reveal_strlit("4");
        reveal_strlit("5");
        reveal_strlit("6");
        reveal_strlit("7");
        reveal_strlit("8");
        reveal_strlit("9");
    }
    let s: &'static str = if d == 0 {
        "0"
    } else if d == 1 {
        "1"
    } else if d == 2 {
        "2"
    } else if d == 3 {
        "3"
    } else if d == 4 {
        "4"
    } else if d == 5 {
        "5"
    } else if d == 6 {
        "6"
    } else if d == 7 {
        "7"
    } else if d == 8 {
        "8"
    } else {
        "9"
    };
    assert(s@ =~= seq![digit_char(d as nat)]);
    s
}

/// Writes a number out in decimal.
pub fn decimal(n: u64) -> (s: String)
    ensures
        s@ == digits(n as nat),
    decreases n,
{
    if n < 10 {
        digit_text(n).to_owned()
    } else {
        let mut s: String = decimal(n / 10);
        s.append(digit_text(n % 10));
        proof {
            assert(s@ =~= digits(n as nat));
        }
        s
    }
}

/// Writes a signed number out in decimal.
pub fn signed_decimal(n: i64) -> (s: String)
    ensures
        s@ == signed_digits(n as int),
{
    if n < 0 {
        let magnitude: u64 = if n == i64::MIN {
            0x8000_0000_0000_0000
        } else {
            (-n) as u64
        };
        let mut s: String = "-".to_owned();
        s.append(decimal(magnitude).as_str());
        s
    } else {
        decimal(n as u64)
    }
}

/// Whether two texts are the same.
pub fn same_text(a: &str, b: &str) -> (r: bool)
    ensures
        r == (a@ == b@),
{
    let x: String = a.to_owned();
    let y: String = b.to_owned();
    x == y
}

/// `prefix` opens `s`.
pub open spec fn opens(s: Seq<char>, prefix: Seq<char>) -> bool {
    prefix.len() <= s.len() && s.take(prefix.len() as int) == prefix
}

pub fn starts_with(s: &str, prefix: &str) -> (r: bool)
    ensures
        r == opens(s@, prefix@),
{
    let n: usize = prefix.unicode_len();
    if s.unicode_len() < n {
        return false;
    }
    let head: &str = s.substring_char(0, n);
    proof {
        assert(s@.subrange(0, n as int) =~= s@.take(n as int));
    }
    same_text(head, prefix)
}

/// `part` occurs in `s`.
pub open spec fn occurs(part: Seq<char>, s: Seq<char>) -> bool {
    exists|at: int|
        0 <= at <= s.len() - part.len() && #[trigger] s.subrange(at, at + part.len()) == part
}

pub fn contains(s: &str, part: &str) -> (r: bool)
    ensures
        r == occurs(part@, s@),
{
    let n: usize = part.unicode_len();
    let len: usize = s.unicode_len();
    if len < n {
        return false;
    }
    let mut at: usize = 0;
    while at <= len - n
        invariant
            n == part@.len(),
            len == s@.len(),
            n <= len,
            at <= len - n + 1,
            forall|i: int| 0 <= i < at ==> #[trigger] s@.subrange(i, i + part@.len()) != part@,
        decreases len - n + 1 - at,
    {
        let piece: &str = s.substring_char(at, at + n);
        if same_text(piece, part) {
            return true;
        }
        if at == len - n {
            return false;
        }
        at += 1;
    }
    false
}

/// The characters Unicode calls white space.
pub open spec fn is_white_space(c: char) -> bool {
    ||| '\u{9}' <= c <= '\u{d}'
    ||| c == '\u{20}'
    ||| c == '\u{85}'
    ||| c == '\u{a0}'
    ||| c == '\u{1680}'
    ||| '\u{2000}' <= c <= '\u{200a}'
    ||| c == '\u{2028}'
    ||| c == '\u{2029}'
    ||| c == '\u{202f}'
    ||| c == '\u{205f}'
    ||| c == '\u{3000}'
}

pub open spec fn all_white(s: Seq<char>) -> bool {
    forall|i: int| 0 <= i < s.len() ==> is_white_space(#[trigger] s[i])
}

/// `kept` is `s` without the white space at its two ends.
pub open spec fn is_trimmed(s: Seq<char>, kept: Seq<char>) -> bool {
    &&& exists|front: Seq<char>, back: Seq<char>| #[trigger]
        around(s, front, kept, back) && all_white(front) && all_white(back)
    &&& kept.len() > 0 ==> !is_white_space(kept[0]) && !is_white_space(kept.last())
}

pub open spec fn around(s: Seq<char>, front: Seq<char>, kept: Seq<char>, back: Seq<char>) -> bool {
    s == front + kept + back
}

/// `str::trim`: the text without the white space, as Unicode has it, at its two ends.
#[verifier::external_body]
fn std_trim(s: &str) -> (r: String)
    ensures
        is_trimmed(s@, r@),
{
    s.trim().to_string()
}

/// The text without the white space at its two ends.
pub fn trimmed(s: &str) -> (r: String)
    ensures
        is_trimmed(s@, r@),
{
    std_trim(s)
}

/// There is one way to trim a text.
pub proof fn lemma_trimming_is_unique(s: Seq<char>, a: Seq<char>, b: Seq<char>)
    requires
        is_trimmed(s, a),
        is_trimmed(s, b),
    ensures
        a == b,
{
    let (f1, k1) = choose|front: Seq<char>, back: Seq<char>| #[trigger]
        around(s, front, a, back) && all_white(front) && all_white(back);
    let (f2, k2) = choose|front: Seq<char>, back: Seq<char>| #[trigger]
        around(s, front, b, back) && all_white(front) && all_white(back);
    assert(s.len() == f1.len() + a.len() + k1.len());
    assert(s.len() == f2.len() + b.len() + k2.len());
    if a.len() == 0 {
        if b.len() > 0 {
            let i = f2.len() as int;
            assert(s[i] == b[0]);
            if i < f1.len() {
                assert(s[i] == f1[i]);
            } else {
                assert(s[i] == k1[i - f1.len()]);
            }
        }
        assert(a =~= b);
    } else if b.len() == 0 {
        let i = f1.len() as int;
        assert(s[i] == a[0]);
        if i < f2.len() {
            assert(s[i] == f2[i]);
        } else {
            assert(s[i] == k2[i - f2.len()]);
        }
    } else {
        let i1 = f1.len() as int;
        let i2 = f2.len() as int;
        assert(s[i1] == a[0] && s[i2] == b[0]);
        assert(i1 == i2) by {
            if i1 < i2 {
                assert(s[i1] == f2[i1]);
            }
            if i2 < i1 {
                assert(s[i2] == f1[i2]);
            }
        }
        let e1 = i1 + a.len() - 1;
        let e2 = i2 + b.len() - 1;
        assert(s[e1] == a.last() && s[e2] == b.last());
        assert(e1 == e2) by {
            if e1 < e2 {
                assert(s[e2] == k1[e2 - e1 - 1]);
            }
            if e2 < e1 {
                assert(s[e1] == k2[e1 - e2 - 1]);
            }
        }
        assert forall|j: int| 0 <= j < a.len() implies a[j] == b[j] by {
            assert(s[i1 + j] == a[j] && s[i2 + j] == b[j]);
        }
        assert(a =~= b);
    }
}

/// A path that reads the same on every platform: nothing parts its components but `/`, and it
/// opens with no prefix of a drive, a server or a scheme.
pub open spec fn plain_path(path: Seq<char>) -> bool {
    &&& !path.contains('\\')
    &&& !path.contains(':')
    &&& !(path.len() >= 2 && path[0] == '/' && path[1] == '/')
}

/// Where the last component of a path begins: behind its last slash.
pub open spec fn last_component_at(path: Seq<char>) -> int
    decreases path.len(),
{
    if path.len() == 0 || path.last() == '/' {
        path.len() as int
    } else {
        last_component_at(path.drop_last())
    }
}

/// The final component of a plain path. Slashes at the end do not count, and neither does a single
/// dot; a path that ends in two dots, or has nothing but slashes and single dots, names no file.
pub open spec fn final_component(path: Seq<char>) -> Option<Seq<char>>
    decreases path.len(),
{
    if path.len() == 0 {
        None
    } else if path.last() == '/' {
        final_component(path.drop_last())
    } else {
        let name = path.skip(last_component_at(path));
        if name == seq!['.'] {
            final_component(path.drop_last())
        } else if name == seq!['.', '.'] {
            None
        } else {
            Some(name)
        }
    }
}

/// `std::path::Path::file_name`: the final component of a path, if there is one. It is a piece of
/// the path and not empty. Of a path that reads the same on every platform it is what
/// [`final_component`] says; of any other, which characters part components is up to the platform,
/// and no more is said of it.
#[verifier::external_body]
fn path_file_name(path: &str) -> (r: Option<String>)
    ensures
        r matches Some(name) ==> name@.len() > 0 && occurs(name@, path@),
        plain_path(path@) ==> match r {
            Some(name) => final_component(path@) == Some(name@),
            None => final_component(path@) is None,
        },
{
    std::path::Path::new(path).file_name().map(|n| n.to_string_lossy().into_owned())
}

/// What a path is shown as: its file name, or the whole of it where it has none.
pub fn shown_name(file_name: Option<String>, path: &str) -> (r: String)
    ensures
        r@ == (match file_name {
            Some(name) => name@,
            None => path@,
        }),
{
    match file_name {
        Some(name) => name,
        None => path.to_owned(),
    }
}

/// What a plain path is shown as: its final component, or the whole of it where it has none.
pub open spec fn shown_path(path: Seq<char>) -> Seq<char> {
    match final_component(path) {
        Some(name) => name,
        None => path,
    }
}

/// A path is shown as a piece of it, and never as nothing where it is something; a plain one as
/// its final component.
pub open spec fn names_path(name: Seq<char>, path: Seq<char>) -> bool {
    &&& occurs(name, path)
    &&& path.len() > 0 ==> name.len() > 0
    &&& plain_path(path) ==> name == shown_path(path)
}

/// The last part of a path or a description, for people to read.
pub fn basename(path_or_desc: &str) -> (r: String)
    ensures
        names_path(r@, path_or_desc@),
{
    proof {
        assert(path_or_desc@.subrange(0, 0int + path_or_desc@.len()) =~= path_or_desc@);
        assert(occurs(path_or_desc@, path_or_desc@));
    }
    shown_name(path_file_name(path_or_desc), path_or_desc)
}

proof fn lemma_last_component(path: Seq<char>)
    ensures
        0 <= last_component_at(path) <= path.len(),
        !path.skip(last_component_at(path)).contains('/'),
        last_component_at(path) > 0 ==> path[last_component_at(path) - 1] == '/',
    decreases path.len(),
{
    if path.len() > 0 && path.last() != '/' {
        let rest = path.drop_last();
        lemma_last_component(rest);
        let name = path.skip(last_component_at(path));
        assert forall|i: int| 0 <= i < name.len() implies name[i] != '/' by {
            if i < name.len() - 1 {
                assert(name[i] == rest.skip(last_component_at(rest))[i]);
            }
        }
    }
}

proof fn lemma_behind_the_last_slash(front: Seq<char>, name: Seq<char>)
    requires
        front.len() == 0 || front.last() == '/',
        !name.contains('/'),
    ensures
        last_component_at(front + name) == front.len(),
    decreases name.len(),
{
    let path = front + name;
    if name.len() == 0 {
        assert(path =~= front);
    } else {
        assert(name.contains(name.last()));
        assert(path.drop_last() =~= front + name.drop_last());
        assert forall|c: char| name.drop_last().contains(c) implies name.contains(c) by {
            let i = choose|i: int| 0 <= i < name.drop_last().len() && name.drop_last()[i] == c;
            assert(name[i] == c);
        }
        lemma_behind_the_last_slash(front, name.drop_last());
    }
}

/// What stands behind the last slash of a path is its final component, where it is something and
/// neither of the two names made of dots.
pub proof fn lemma_a_file_is_named_behind_the_last_slash(front: Seq<char>, name: Seq<char>)
    requires
        front.len() == 0 || front.last() == '/',
        !name.contains('/'),
        name.len() > 0,
        name != seq!['.'],
        name != seq!['.', '.'],
    ensures
        final_component(front + name) == Some(name),
{
    lemma_behind_the_last_slash(front, name);
    assert(name.contains(name.last()));
    assert((front + name).skip(front.len() as int) =~= name);
}

/// A final component is something, holds no slash, is neither of the two names made of dots and is
/// a piece of its path.
pub proof fn lemma_final_component_is_a_name(path: Seq<char>)
    ensures
        final_component(path) matches Some(name) ==> {
            &&& name.len() > 0
            &&& !name.contains('/')
            &&& name != seq!['.']
            &&& name != seq!['.', '.']
            &&& forall|c: char| name.contains(c) ==> path.contains(c)
        },
    decreases path.len(),
{
    if path.len() > 0 {
        let rest = path.drop_last();
        lemma_final_component_is_a_name(rest);
        lemma_last_component(path);
        assert forall|c: char| rest.contains(c) implies path.contains(c) by {
            let i = choose|i: int| 0 <= i < rest.len() && rest[i] == c;
            assert(path[i] == c);
        }
        let at = last_component_at(path);
        let name = path.skip(at);
        assert forall|c: char| name.contains(c) implies path.contains(c) by {
            let i = choose|i: int| 0 <= i < name.len() && name[i] == c;
            assert(path[at + i] == c);
        }
        if path.last() != '/' {
            assert(last_component_at(rest) <= rest.len()) by {
                lemma_last_component(rest);
            }
        }
    }
}

/// What a plain path is shown as is shown as itself.
pub proof fn lemma_a_shown_name_shows_itself(path: Seq<char>)
    requires
        plain_path(path),
    ensures
        plain_path(shown_path(path)),
        shown_path(shown_path(path)) == shown_path(path),
{
    lemma_final_component_is_a_name(path);
    if let Some(name) = final_component(path) {
        lemma_a_file_is_named_behind_the_last_slash(Seq::empty(), name);
        assert(Seq::empty() + name =~= name);
        if name.len() >= 2 {
            assert(name.contains(name[0]));
        }
    }
}

/// The number that a row of digits writes out.
pub open spec fn number_of(s: Seq<char>) -> int
    decreases s.len(),
{
    if s.len() == 0 {
        0
    } else {
        10 * number_of(s.drop_last()) + (s.last() as int - '0' as int)
    }
}

/// A number written out in decimal reads back as that number, every character of it is a digit, and
/// it has no leading zero but for zero itself.
pub proof fn lemma_a_number_reads_back(n: nat)
    ensures
        number_of(digits(n)) == n,
        digits(n).len() > 0,
        forall|i: int| 0 <= i < digits(n).len() ==> '0' <= (#[trigger] digits(n)[i]) <= '9',
        digits(n)[0] == '0' ==> n == 0 && digits(n).len() == 1,
    decreases n,
{
    let s = digits(n);
    if n < 10 {
        reveal_with_fuel(number_of, 2);
        assert(s.drop_last() =~= Seq::empty());
    } else {
        lemma_a_number_reads_back(n / 10);
        assert(s.drop_last() =~= digits(n / 10));
        assert forall|i: int| 0 <= i < s.len() implies '0' <= (#[trigger] s[i]) <= '9' by {
            if i < s.len() - 1 {
                assert(s[i] == digits(n / 10)[i]);
            }
        }
        assert(s[0] == digits(n / 10)[0]);
    }
}

/// A signed number opens with a minus sign exactly where it is below zero, and what follows reads
/// back as its magnitude.
pub proof fn lemma_a_signed_number_reads_back(n: int)
    ensures
        signed_digits(n).len() > 0,
        signed_digits(n)[0] == '-' <==> n < 0,
        n < 0 ==> number_of(signed_digits(n).skip(1)) == -n,
        n >= 0 ==> number_of(signed_digits(n)) == n,
{
    reveal_strlit("-");
    if n < 0 {
        lemma_a_number_reads_back((-n) as nat);
        assert(signed_digits(n).skip(1) =~= digits((-n) as nat));
    } else {
        lemma_a_number_reads_back(n as nat);
    }
}

} // verus!
