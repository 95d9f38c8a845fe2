//! Small text transforms behind the command-line tools, and the request
//! target of an HTTP request line.
use vstd::prelude::*;

verus! {

/// `c` with an ASCII lower-case letter turned into its upper-case letter.
pub open spec fn ascii_upper(c: char) -> char {
    if 'a' <= c && c <= 'z' {
        ((c as u32) - 32) as char
    } else {
        c
    }
}

/// `c` has the Unicode White_Space property.
pub open spec fn is_space(c: char) -> bool {
    let u = c as u32;
    (0x9 <= u && u <= 0xd) || u == 0x20 || u == 0x85 || u == 0xa0 || u == 0x1680 || (0x2000 <= u
        && u <= 0x200a) || u == 0x2028 || u == 0x2029 || u == 0x202f || u == 0x205f || u == 0x3000
}

/// Relies on char::to_ascii_uppercase: maps 'a'..='z' to 'A'..='Z' and
/// leaves every other char as it is.
#[verifier::external_body]
fn to_ascii_upper(c: char) -> (r: char)
    ensures
        r == ascii_upper(c),
{
    c.to_ascii_uppercase()
}

/// Relies on char::is_whitespace: true exactly for the White_Space chars.
#[verifier::external_body]
fn is_whitespace(c: char) -> (r: bool)
    ensures
        r == is_space(c),
{
    c.is_whitespace()
}

/// Relies on String::push: appends one char.
#[verifier::external_body]
fn push_char(s: &mut String, c: char)
    ensures
        final(s)@ == old(s)@.push(c),
{
    s.push(c)
}

/// `s` in camel case: each underscore is dropped, and the char that
/// follows a run of underscores is turned upper case (ASCII only).
/// `cap` says whether the first char follows an underscore.
pub open spec fn camel(s: Seq<char>, cap: bool) -> Seq<char>
    decreases s.len(),
{
    if s.len() == 0 {
        Seq::empty()
    } else if s[0] == '_' {
        camel(s.drop_first(), true)
    } else if cap {
        seq![ascii_upper(s[0])] + camel(s.drop_first(), false)
    } else {
        seq![s[0]] + camel(s.drop_first(), false)
    }
}

/// Turns `snake_case` into `snakeCase`: underscores are removed and the
/// char after them is upper-cased.
pub fn underscore_to_camelcase(input: &str) -> (r: String)
    ensures
        r@ == camel(input@, false),
{
    let mut result = String::new();
    let mut capitalize_next = false;
    let n = input.unicode_len();
    let mut i: usize = 0;
    assert(input@.skip(0) =~= input@);
    assert(result@ + camel(input@, false) =~= camel(input@, false));
    while i < n
        invariant
            n == input@.len(),
            i <= n,
            result@ + camel(input@.skip(i as int), capitalize_next) == camel(input@, false),
        decreases n - i,
    {
        let c = input.get_char(i);
        let ghost rest = input@.skip(i as int);
        assert(rest.drop_first() =~= input@.skip(i + 1));
        assert(rest[0] == c);
        let ghost prev = result@;
        if c == '_' {
            capitalize_next = true;
        } else if capitalize_next {
            push_char(&mut result, to_ascii_upper(c));
            capitalize_next = false;
            assert(prev + camel(rest, true) =~= result@ + camel(input@.skip(i + 1), false));
        } else {
            push_char(&mut result, c);
            assert(prev + camel(rest, false) =~= result@ + camel(input@.skip(i + 1), false));
        }
        i = i + 1;
    }
    assert(input@.skip(n as int) =~= Seq::<char>::empty());
    assert(result@ + camel(Seq::<char>::empty(), capitalize_next) =~= result@);
    result
}

/// The index of the first line break of `s` at or after `i`, or the length
/// of `s` when there is none.
pub open spec fn line_end(s: Seq<char>, i: int) -> int
    decreases s.len() - i,
{
    if i < 0 || i >= s.len() || s[i] == '\n' {
        i
    } else {
        line_end(s, i + 1)
    }
}

/// The first index at or after `i`, and at most `e`, whose char is not
/// whitespace (`space`) or is whitespace (`!space`).
pub open spec fn skip_class(s: Seq<char>, i: int, e: int, space: bool) -> int
    decreases e - i,
{
    if 0 <= i < e && e <= s.len() && is_space(s[i]) == space {
        skip_class(s, i + 1, e, space)
    } else {
        i
    }
}

/// The second whitespace-separated word of the first line of `req` (the
/// target of an HTTP request line), or nothing when that line has fewer
/// than two words.
pub open spec fn request_target(req: Seq<char>) -> Seq<char> {
    let e = line_end(req, 0);
    let a = skip_class(req, 0, e, true);
    let b = skip_class(req, a, e, false);
    let c = skip_class(req, b, e, true);
    let d = skip_class(req, c, e, false);
    req.subrange(c, d)
}

proof fn lemma_line_end_bounds(s: Seq<char>, i: int)
    requires
        0 <= i <= s.len(),
    ensures
        i <= line_end(s, i) <= s.len(),
    decreases s.len() - i,
{
    if i < s.len() && s[i] != '\n' {
        lemma_line_end_bounds(s, i + 1);
    }
}

proof fn lemma_skip_bounds(s: Seq<char>, i: int, e: int, space: bool)
    requires
        0 <= i <= e <= s.len(),
    ensures
        i <= skip_class(s, i, e, space) <= e,
    decreases e - i,
{
    if i < e && is_space(s[i]) == space {
        lemma_skip_bounds(s, i + 1, e, space);
    }
}

/// The end of the line of `req` that starts at `i`.
fn find_line_end(req: &str, n: usize, i: usize) -> (r: usize)
    requires
        n == req@.len(),
        i <= n,
    ensures
        r == line_end(req@, i as int),
{
    let mut k: usize = i;
    while k < n && req.get_char(k) != '\n'
        invariant
            n == req@.len(),
            i <= k <= n,
            line_end(req@, k as int) == line_end(req@, i as int),
        decreases n - k,
    {
        k = k + 1;
    }
    k
}

/// Moves from `i` past the chars of one class (whitespace when `space`),
/// stopping at `e`.
fn skip(req: &str, i: usize, e: usize, space: bool) -> (r: usize)
    requires
        i <= e <= req@.len(),
    ensures
        r == skip_class(req@, i as int, e as int, space),
{
    let mut k: usize = i;
    while k < e && is_whitespace(req.get_char(k)) == space
        invariant
            i <= k <= e <= req@.len(),
            skip_class(req@, k as int, e as int, space) == skip_class(
                req@,
                i as int,
                e as int,
                space,
            ),
        decreases e - k,
    {
        k = k + 1;
    }
    k
}

/// The request target of an HTTP request: the second word of its first line.
pub fn parse_request(request: &str) -> (r: &str)
    ensures
        r@ == request_target(request@),
{
    let n = request.unicode_len();
    let e = find_line_end(request, n, 0);
    proof {
        lemma_line_end_bounds(request@, 0);
    }
    let a = skip(request, 0, e, true);
    proof {
        lemma_skip_bounds(request@, 0, e as int, true);
    }
    let b = skip(request, a, e, false);
    proof {
        lemma_skip_bounds(request@, a as int, e as int, false);
    }
    let c = skip(request, b, e, true);
    proof {
        lemma_skip_bounds(request@, b as int, e as int, true);
    }
    let d = skip(request, c, e, false);
    proof {
        lemma_skip_bounds(request@, c as int, e as int, false);
    }
    request.substring_char(c, d)
}

/// What `str::to_uppercase` makes of a string: its Unicode upper case.
pub uninterp spec fn upper_of(s: Seq<char>) -> Seq<char>;

/// Relies on str::to_uppercase: the result depends on the chars alone, and
/// the empty string stays empty.
#[verifier::external_body]
fn to_upper(s: &str) -> (r: String)
    ensures
        r@ == upper_of(s@),
        s@.len() == 0 ==> r@.len() == 0,
{
    s.to_uppercase()
}

/// Each of `args` in upper case, in order.
pub fn uppercase_lines(args: &Vec<String>) -> (r: Vec<String>)
    ensures
        r@.len() == args@.len(),
        forall|i: int| 0 <= i < args@.len() ==> #[trigger] r@[i]@ == upper_of(args@[i]@),
{
    let mut r: Vec<String> = Vec::new();
    let mut i: usize = 0;
    while i < args.len()
        invariant
            i <= args@.len(),
            r@.len() == i,
            forall|k: int| 0 <= k < i ==> #[trigger] r@[k]@ == upper_of(args@[k]@),
        decreases args@.len() - i,
    {
        r.push(to_upper(args[i].as_str()));
        i = i + 1;
    }
    r
}

/// The chars of `s` in reverse order.
pub fn reverse_chars(s: &str) -> (r: String)
    ensures
        r@ == s@.reverse(),
{
    let n = s.unicode_len();
    let mut r = String::new();
    let mut i: usize = n;
    while i > 0
        invariant
            n == s@.len(),
            i <= n,
            r@.len() == n - i,
            forall|k: int| 0 <= k < n - i ==> #[trigger] r@[k] == s@[n - 1 - k],
        decreases i,
    {
        i = i - 1;
        push_char(&mut r, s.get_char(i));
    }
    assert(r@ =~= s@.reverse());
    r
}

/// Each of `args` with its chars reversed, in order.
pub fn reversed_lines(args: &Vec<String>) -> (r: Vec<String>)
    ensures
        r@.len() == args@.len(),
        forall|i: int| 0 <= i < args@.len() ==> #[trigger] r@[i]@ == args@[i]@.reverse(),
{
    let mut r: Vec<String> = Vec::new();
    let mut i: usize = 0;
    while i < args.len()
        invariant
            i <= args@.len(),
            r@.len() == i,
            forall|k: int| 0 <= k < i ==> #[trigger] r@[k]@ == args@[k]@.reverse(),
        decreases args@.len() - i,
    {
        r.push(reverse_chars(args[i].as_str()));
        i = i + 1;
    }
    r
}

/// Each of `args` turned into camel case, in order.
pub fn camelcase_lines(args: &Vec<String>) -> (r: Vec<String>)
    ensures
        r@.len() == args@.len(),
        forall|i: int| 0 <= i < args@.len() ==> #[trigger] r@[i]@ == camel(args@[i]@, false),
{
    let mut r: Vec<String> = Vec::new();
    let mut i: usize = 0;
    while i < args.len()
        invariant
            i <= args@.len(),
            r@.len() == i,
            forall|k: int| 0 <= k < i ==> #[trigger] r@[k]@ == camel(args@[k]@, false),
        decreases args@.len() - i,
    {
        r.push(underscore_to_camelcase(args[i].as_str()));
        i = i + 1;
    }
    r
}

} // verus!
