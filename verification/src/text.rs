//! Text rules: which names are valid, how a name is escaped in a path, how
//! a request path falls into segments, and how a number is written.

use vstd::prelude::*;
use vstd::string::*;
use crate::models::strings_view;

verus! {

/// The characters that no name may hold.
pub open spec fn is_forbidden(c: char) -> bool {
    c == '/' || c == '*' || c == '\\' || c == ':' || c == '?' || c == '"' || c == '<' || c == '>'
        || c == '\''
}

/// Whether `name` holds none of the forbidden characters.
pub open spec fn valid_name(name: Seq<char>) -> bool {
    forall|i: int| 0 <= i < name.len() ==> !is_forbidden(#[trigger] name[i])
}

/// Whether `name` is a valid name for a file or a directory.
pub fn is_valid_name(name: &String) -> (r: bool)
    ensures
        r == valid_name(name@),
{
    let s = name.as_str();
    let n = s.unicode_len();
    let mut i: usize = 0;
    while i < n
        invariant
            i <= n,
            n == s@.len(),
            s@ == name@,
            forall|j: int| 0 <= j < i ==> !is_forbidden(#[trigger] name@[j]),
        decreases n - i,
    {
        let c = s.get_char(i);
        if c == '/' || c == '*' || c == '\\' || c == ':' || c == '?' || c == '"' || c == '<'
            || c == '>' || c == '\'' {
            return false;
        }
        i += 1;
    }
    true
}

/// `s` with each of its first `n` characters kept, but a space written as `%20`.
pub open spec fn escaped_prefix(s: Seq<char>, n: nat) -> Seq<char>
    decreases n,
{
    if n == 0 || n > s.len() {
        Seq::empty()
    } else if s[n - 1] == ' ' {
        escaped_prefix(s, (n - 1) as nat) + seq!['%', '2', '0']
    } else {
        escaped_prefix(s, (n - 1) as nat).push(s[n - 1])
    }
}

/// `s` with every space written as `%20`.
pub open spec fn escaped(s: Seq<char>) -> Seq<char> {
    escaped_prefix(s, s.len())
}

/// `name` with every space written as `%20`.
pub fn escape_spaces(name: &String) -> (r: String)
    ensures
        r@ == escaped(name@),
{
    let s = name.as_str();
    let n = s.unicode_len();
    let mut out = String::new();
    let mut i: usize = 0;
    while i < n
        invariant
            i <= n,
            n == s@.len(),
            s@ == name@,
            out@ == escaped_prefix(name@, i as nat),
        decreases n - i,
    {
        let c = s.get_char(i);
        if c == ' ' {
            proof {
                reveal_strlit("%20");
            }
            out.append("%20");
            assert(out@ =~= escaped_prefix(name@, i as nat) + seq!['%', '2', '0']);
        } else {
            let piece = s.substring_char(i, i + 1);
            out.append(piece);
            assert(piece@ =~= seq![name@[i as int]]);
            assert(out@ =~= escaped_prefix(name@, i as nat).push(name@[i as int]));
        }
        i += 1;
    }
    out
}

/// The segments closed among the first `n` characters of `s`: the non-empty
/// runs between slashes that a slash has ended.
pub open spec fn closed_segments(s: Seq<char>, n: nat) -> Seq<Seq<char>>
    decreases n,
{
    if n == 0 || n > s.len() {
        Seq::empty()
    } else if s[n - 1] == '/' && open_segment(s, (n - 1) as nat).len() > 0 {
        closed_segments(s, (n - 1) as nat).push(open_segment(s, (n - 1) as nat))
    } else {
        closed_segments(s, (n - 1) as nat)
    }
}

/// The run since the last slash among the first `n` characters of `s`.
pub open spec fn open_segment(s: Seq<char>, n: nat) -> Seq<char>
    decreases n,
{
    if n == 0 || n > s.len() {
        Seq::empty()
    } else if s[n - 1] == '/' {
        Seq::empty()
    } else {
        open_segment(s, (n - 1) as nat).push(s[n - 1])
    }
}

/// `s` split at each slash, the empty pieces dropped.
pub open spec fn segments(s: Seq<char>) -> Seq<Seq<char>> {
    if open_segment(s, s.len()).len() > 0 {
        closed_segments(s, s.len()).push(open_segment(s, s.len()))
    } else {
        closed_segments(s, s.len())
    }
}

/// The segments of a request path: `url` split at each slash, the empty pieces dropped.
pub fn split_path(url: &String) -> (r: Vec<String>)
    ensures
        strings_view(r@) == segments(url@),
{
    let s = url.as_str();
    let n = s.unicode_len();
    let mut out: Vec<String> = Vec::new();
    let mut start: usize = 0;
    let mut i: usize = 0;
    while i < n
        invariant
            start <= i <= n,
            n == s@.len(),
            s@ == url@,
            strings_view(out@) == closed_segments(url@, i as nat),
            url@.subrange(start as int, i as int) == open_segment(url@, i as nat),
        decreases n - i,
    {
        let c = s.get_char(i);
        if c == '/' {
            if start < i {
                let piece = String::from_str(s.substring_char(start, i));
                out.push(piece);
                assert(strings_view(out@) =~= closed_segments(url@, i as nat).push(
                    open_segment(url@, i as nat),
                ));
            }
            start = i + 1;
            assert(url@.subrange(start as int, i + 1) =~= Seq::<char>::empty());
        } else {
            assert(url@.subrange(start as int, i + 1) =~= url@.subrange(
                start as int,
                i as int,
            ).push(url@[i as int]));
        }
        i += 1;
    }
    if start < n {
        let piece = String::from_str(s.substring_char(start, n));
        out.push(piece);
        assert(strings_view(out@) =~= closed_segments(url@, n as nat).push(open_segment(url@, n as nat)));
    }
    out
}

/// The decimal digit `d`.
pub open spec fn digit(d: nat) -> char {
    if d == 0 {
        '0'
    } else if d == 1 {
        '1'
    } else if d == 2 {
        '2'
    } else if d == 3 {
        '3'
    } else if d == 4 {
        '4'
    } else if d == 5 {
        '5'
    } else if d == 6 {
        '6'
    } else if d == 7 {
        '7'
    } else if d == 8 {
        '8'
    } else {
        '9'
    }
}

/// `n` written in decimal, without leading zeros.
pub open spec fn decimal(n: nat) -> Seq<char>
    decreases n,
{
    if n < 10 {
        seq![digit(n)]
    } else {
        decimal(n / 10).push(digit(n % 10))
    }
}

fn digit_text(d: u64) -> (r: &'static str)
    requires
        d < 10,
    ensures
        r@ == seq![digit(d as nat)],
{
    proof {
        reveal_strlit("0");
        reveal_strlit("1");
        reveal_strlit("2");
        reveal_strlit("3");
        reveal_strlit("4");
        reveal_strlit("5");
        reveal_strlit("6");
        reveal_strlit("7");
        reveal_strlit("8");
        reveal_strlit("9");
    }
    let r = if d == 0 {
        "0"
    } else if d == 1 {
        "1"
    } else if d == 2 {
        "2"
    } else if d == 3 {
        "3"
    } else if d == 4 {
        "4"
    } else if d == 5 {
        "5"
    } else if d == 6 {
        "6"
    } else if d == 7 {
        "7"
    } else if d == 8 {
        "8"
    } else {
        "9"
    };
    assert(r@ =~= seq![digit(d as nat)]);
    r
}

/// `n` written in decimal.
pub fn decimal_string(n: u64) -> (r: String)
    ensures
        r@ == decimal(n as nat),
    decreases n,
{
    if n < 10 {
        String::from_str(digit_text(n))
    } else {
        let mut s = decimal_string(n / 10);
        s.append(digit_text(n % 10));
        assert(s@ =~= decimal((n / 10) as nat).push(digit((n % 10) as nat)));
        s
    }
}

/// The first `n` of `parts`, taken from the last to the first, each escaped,
/// with a slash between two of them.
pub open spec fn joined_reversed(parts: Seq<Seq<char>>, n: nat) -> Seq<char>
    decreases n,
{
    if n == 0 || n > parts.len() {
        Seq::empty()
    } else if n == 1 {
        escaped(parts[0])
    } else {
        escaped(parts[n - 1]) + seq!['/'] + joined_reversed(parts, (n - 1) as nat)
    }
}

} // verus!
