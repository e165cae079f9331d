//! Identifier text: raw-prefix stripping, case conversion, decimal suffixes,
//! and the search for a generated name that no source identifier takes.

use vstd::prelude::*;
use vstd::set_lib::lemma_len_subset;

verus! {

/// A name as the source spells it, without the `r#` prefix of a raw identifier.
pub open spec fn spec_unraw(s: Seq<char>) -> Seq<char> {
    if s.len() >= 2 && s[0] == 'r' && s[1] == '#' {
        s.skip(2)
    } else {
        s
    }
}

/// What `char::to_uppercase` yields for a character.
pub uninterp spec fn spec_char_upper(c: char) -> Seq<char>;

/// What `char::to_lowercase` yields for a character.
pub uninterp spec fn spec_char_lower(c: char) -> Seq<char>;

/// Whether `char::is_uppercase` holds of a character.
pub uninterp spec fn spec_char_is_upper(c: char) -> bool;

/// Calls `String::push`; the contract claims that the character is appended.
#[verifier::external_body]
pub(crate) fn push_char(s: &mut String, c: char)
    ensures
        final(s)@ == old(s)@.push(c),
{
    s.push(c);
}

/// Whether a character is an ASCII lower-case letter.
pub open spec fn is_ascii_lower(c: char) -> bool {
    'a' <= c <= 'z'
}

/// Whether a character is an ASCII upper-case letter.
pub open spec fn is_ascii_upper(c: char) -> bool {
    'A' <= c <= 'Z'
}

/// Whether a character is an ASCII digit.
pub open spec fn is_ascii_digit(c: char) -> bool {
    '0' <= c <= '9'
}

/// The ASCII letter 32 code points below or above `c`.
pub open spec fn shift_case(c: char, up: bool) -> char {
    if up {
        (c as int - 32) as char
    } else {
        (c as int + 32) as char
    }
}

/// Calls `char::to_uppercase` and collects what it yields; the contract names
/// that sequence and says nothing more of it.
#[verifier::external_body]
fn char_upper(c: char) -> (r: Vec<char>)
    ensures
        r@ == spec_char_upper(c),
{
    c.to_uppercase().collect()
}

/// Calls `char::to_lowercase` and collects what it yields; the contract names
/// that sequence and says nothing more of it.
#[verifier::external_body]
fn char_lower(c: char) -> (r: Vec<char>)
    ensures
        r@ == spec_char_lower(c),
{
    c.to_lowercase().collect()
}

/// Calls `char::is_uppercase`; the contract names its answer.
#[verifier::external_body]
fn char_is_upper(c: char) -> (r: bool)
    ensures
        r == spec_char_is_upper(c),
{
    c.is_uppercase()
}

/// The upper-case form of a character: an ASCII letter maps to its capital,
/// other ASCII characters to themselves, anything else as
/// `char::to_uppercase` maps it.
pub open spec fn spec_upper(c: char) -> Seq<char> {
    if is_ascii_lower(c) {
        seq![shift_case(c, true)]
    } else if (c as int) < 128 {
        seq![c]
    } else {
        spec_char_upper(c)
    }
}

/// The lower-case form of a character: an ASCII capital maps to its
/// lower-case letter, other ASCII characters to themselves, anything else as
/// `char::to_lowercase` maps it.
pub open spec fn spec_lower(c: char) -> Seq<char> {
    if is_ascii_upper(c) {
        seq![shift_case(c, false)]
    } else if (c as int) < 128 {
        seq![c]
    } else {
        spec_char_lower(c)
    }
}

/// Whether a character is upper case: among ASCII characters exactly the
/// capitals are; anything else as `char::is_uppercase` says.
pub open spec fn spec_is_upper(c: char) -> bool {
    if (c as int) < 128 {
        is_ascii_upper(c)
    } else {
        spec_char_is_upper(c)
    }
}

/// The upper-case form of a character.
fn upper_of(c: char) -> (r: Vec<char>)
    ensures
        r@ == spec_upper(c),
{
    let code = c as u32;
    if 'a' <= c && c <= 'z' {
        let shifted = (code - 32) as u8;
        let mut r: Vec<char> = Vec::new();
        r.push(shifted as char);
        assert(r@ =~= seq![shift_case(c, true)]);
        r
    } else if code < 128 {
        let mut r: Vec<char> = Vec::new();
        r.push(c);
        assert(r@ =~= seq![c]);
        r
    } else {
        char_upper(c)
    }
}

/// The lower-case form of a character.
fn lower_of(c: char) -> (r: Vec<char>)
    ensures
        r@ == spec_lower(c),
{
    let code = c as u32;
    if 'A' <= c && c <= 'Z' {
        let shifted = (code + 32) as u8;
        let mut r: Vec<char> = Vec::new();
        r.push(shifted as char);
        assert(r@ =~= seq![shift_case(c, false)]);
        r
    } else if code < 128 {
        let mut r: Vec<char> = Vec::new();
        r.push(c);
        assert(r@ =~= seq![c]);
        r
    } else {
        char_lower(c)
    }
}

/// Whether a character is upper case.
fn is_upper(c: char) -> (r: bool)
    ensures
        r == spec_is_upper(c),
{
    if (c as u32) < 128 {
        'A' <= c && c <= 'Z'
    } else {
        char_is_upper(c)
    }
}

/// The characters of a string, in order.
pub fn chars_of(s: &str) -> (r: Vec<char>)
    ensures
        r@ == s@,
{
    let n = s.unicode_len();
    let mut out: Vec<char> = Vec::new();
    let mut i: usize = 0;
    while i < n
        invariant
            n == s@.len(),
            i <= n,
            out@ == s@.take(i as int),
        decreases n - i,
    {
        out.push(s.get_char(i));
        i = i + 1;
        assert(out@ =~= s@.take(i as int));
    }
    assert(s@.take(n as int) =~= s@);
    out
}

/// A string holding the given characters.
pub fn string_of(chars: &Vec<char>) -> (r: String)
    ensures
        r@ == chars@,
{
    let mut out = String::new();
    let mut i: usize = 0;
    while i < chars.len()
        invariant
            i <= chars@.len(),
            out@ == chars@.take(i as int),
        decreases chars.len() - i,
    {
        push_char(&mut out, chars[i]);
        i = i + 1;
        assert(out@ =~= chars@.take(i as int));
    }
    assert(chars@.take(chars@.len() as int) =~= chars@);
    out
}

/// Whether two strings hold the same characters.
pub fn text_is(s: &str, other: &str) -> (r: bool)
    ensures
        r == (s@ == other@),
{
    let n = s.unicode_len();
    if n != other.unicode_len() {
        return false;
    }
    let mut i: usize = 0;
    while i < n
        invariant
            n == s@.len(),
            n == other@.len(),
            i <= n,
            forall|j: int| 0 <= j < i ==> s@[j] == other@[j],
        decreases n - i,
    {
        if s.get_char(i) != other.get_char(i) {
            return false;
        }
        i = i + 1;
    }
    assert(s@ =~= other@);
    true
}

/// The concatenation of two strings.
pub fn concat(a: &str, b: &str) -> (r: String)
    ensures
        r@ == a@ + b@,
{
    let mut out = String::from_str(a);
    out.append(b);
    out
}

/// The identifier without the `r#` prefix of a raw identifier.
pub fn unraw(s: &str) -> (r: String)
    ensures
        r@ == spec_unraw(s@),
{
    let chars = chars_of(s);
    if chars.len() >= 2 && chars[0] == 'r' && chars[1] == '#' {
        let mut rest: Vec<char> = Vec::new();
        let mut i: usize = 2;
        while i < chars.len()
            invariant
                2 <= i <= chars@.len(),
                rest@ == chars@.subrange(2, i as int),
            decreases chars.len() - i,
        {
            rest.push(chars[i]);
            i = i + 1;
            assert(rest@ =~= chars@.subrange(2, i as int));
        }
        assert(chars@.subrange(2, chars@.len() as int) =~= s@.skip(2));
        string_of(&rest)
    } else {
        String::from_str(s)
    }
}

/// The text produced for the first `n` characters of `s` when a
/// `snake_case` name becomes `PascalCase`: underscores are dropped and the
/// character after an underscore (or at the start) is upper-cased.
pub open spec fn spec_pascal_prefix(s: Seq<char>, n: nat) -> Seq<char>
    decreases n,
{
    if n == 0 || n > s.len() {
        Seq::empty()
    } else {
        let i = (n - 1) as int;
        spec_pascal_prefix(s, (n - 1) as nat) + spec_pascal_piece(s, i)
    }
}

/// The output that character `i` of `s` contributes to its `PascalCase` form.
pub open spec fn spec_pascal_piece(s: Seq<char>, i: int) -> Seq<char> {
    if s[i] == '_' {
        Seq::empty()
    } else if i == 0 || s[i - 1] == '_' {
        spec_upper(s[i])
    } else {
        seq![s[i]]
    }
}

/// The `PascalCase` form of a `snake_case` text.
pub open spec fn spec_pascal(s: Seq<char>) -> Seq<char> {
    spec_pascal_prefix(s, s.len())
}

/// The `PascalCase` form of an identifier, after its raw prefix is removed.
pub fn pascal(identifier: &str) -> (r: String)
    ensures
        r@ == spec_pascal(spec_unraw(identifier@)),
{
    let text = unraw(identifier);
    let chars = chars_of(text.as_str());
    let mut out: Vec<char> = Vec::new();
    let mut uppercase = true;
    let mut i: usize = 0;
    while i < chars.len()
        invariant
            i <= chars@.len(),
            out@ == spec_pascal_prefix(chars@, i as nat),
            uppercase == (i == 0 || chars@[i - 1] == '_'),
        decreases chars.len() - i,
    {
        let character = chars[i];
        if character == '_' {
            uppercase = true;
        } else if uppercase {
            let upper = upper_of(character);
            let mut j: usize = 0;
            let ghost before = out@;
            while j < upper.len()
                invariant
                    j <= upper@.len(),
                    out@ == before + upper@.take(j as int),
                decreases upper.len() - j,
            {
                out.push(upper[j]);
                j = j + 1;
                assert(out@ =~= before + upper@.take(j as int));
            }
            assert(upper@.take(upper@.len() as int) =~= upper@);
            uppercase = false;
        } else {
            out.push(character);
            uppercase = false;
        }
        i = i + 1;
        assert(out@ =~= spec_pascal_prefix(chars@, i as nat));
    }
    string_of(&out)
}

/// The output that character `i` of `s` contributes to its `snake_case` form.
pub open spec fn spec_snake_piece(s: Seq<char>, i: int) -> Seq<char> {
    if spec_is_upper(s[i]) {
        if i != 0 {
            seq!['_'] + spec_lower(s[i])
        } else {
            spec_lower(s[i])
        }
    } else {
        seq![s[i]]
    }
}

/// The `snake_case` form of the first `n` characters of a `PascalCase` text.
pub open spec fn spec_snake_prefix(s: Seq<char>, n: nat) -> Seq<char>
    decreases n,
{
    if n == 0 || n > s.len() {
        Seq::empty()
    } else {
        spec_snake_prefix(s, (n - 1) as nat) + spec_snake_piece(s, (n - 1) as int)
    }
}

/// The `snake_case` form of a `PascalCase` text: an underscore goes before
/// every upper-case character but the first, and each is lower-cased.
pub open spec fn spec_snake(s: Seq<char>) -> Seq<char> {
    spec_snake_prefix(s, s.len())
}

/// The `snake_case` form of an identifier, after its raw prefix is removed.
pub fn snake(identifier: &str) -> (r: String)
    ensures
        r@ == spec_snake(spec_unraw(identifier@)),
{
    let text = unraw(identifier);
    let chars = chars_of(text.as_str());
    let mut out: Vec<char> = Vec::new();
    let mut index: usize = 0;
    while index < chars.len()
        invariant
            index <= chars@.len(),
            out@ == spec_snake_prefix(chars@, index as nat),
        decreases chars.len() - index,
    {
        let character = chars[index];
        let ghost before = out@;
        if is_upper(character) {
            if index != 0 {
                out.push('_');
            }
            let lower = lower_of(character);
            let ghost mid = out@;
            let mut j: usize = 0;
            while j < lower.len()
                invariant
                    j <= lower@.len(),
                    out@ == mid + lower@.take(j as int),
                decreases lower.len() - j,
            {
                out.push(lower[j]);
                j = j + 1;
                assert(out@ =~= mid + lower@.take(j as int));
            }
            assert(lower@.take(lower@.len() as int) =~= lower@);
        } else {
            out.push(character);
        }
        assert(out@ =~= before + spec_snake_piece(chars@, index as int));
        index = index + 1;
    }
    string_of(&out)
}

/// Whether a text is ASCII lower `snake_case`: lower-case letters, digits
/// and underscores, starting with a letter, with a letter after every
/// underscore.
pub open spec fn spec_is_snake_word(s: Seq<char>) -> bool {
    &&& s.len() > 0
    &&& is_ascii_lower(s[0])
    &&& forall|i: int|
        0 <= i < s.len() ==> is_ascii_lower(#[trigger] s[i]) || is_ascii_digit(s[i]) || (s[i] == '_' && i + 1
            < s.len() && is_ascii_lower(s[i + 1]))
}

proof fn lemma_snake_prefix_stable(t: Seq<char>, u: Seq<char>, n: nat)
    requires
        n <= t.len(),
    ensures
        spec_snake_prefix(t + u, n) == spec_snake_prefix(t, n),
    decreases n,
{
    if n > 0 {
        lemma_snake_prefix_stable(t, u, (n - 1) as nat);
        let i = (n - 1) as int;
        assert((t + u)[i] == t[i]);
        assert(spec_snake_piece(t + u, i) == spec_snake_piece(t, i));
    }
}

proof fn lemma_snake_push(t: Seq<char>, c: char)
    ensures
        spec_snake(t.push(c)) == spec_snake(t) + spec_snake_piece(t.push(c), t.len() as int),
{
    assert(t.push(c) =~= t + seq![c]);
    lemma_snake_prefix_stable(t, seq![c], t.len());
}

proof fn lemma_snake_of_pascal_prefix(s: Seq<char>, n: nat)
    requires
        spec_is_snake_word(s),
        n <= s.len(),
    ensures
        n > 0 ==> spec_pascal_prefix(s, n).len() > 0 && spec_pascal_prefix(s, n)[0] == shift_case(s[0], true),
        spec_snake(spec_pascal_prefix(s, n)) == (if n > 0 && s[n - 1] == '_' {
            s.take(n - 1)
        } else {
            s.take(n as int)
        }),
    decreases n,
{
    if n == 0 {
        assert(spec_pascal_prefix(s, 0) =~= Seq::<char>::empty());
        assert(s.take(0) =~= Seq::<char>::empty());
    } else {
        let i = (n - 1) as int;
        lemma_snake_of_pascal_prefix(s, (n - 1) as nat);
        let q = spec_pascal_prefix(s, (n - 1) as nat);
        let p = spec_pascal_prefix(s, n);
        assert(p == q + spec_pascal_piece(s, i));
        let c = s[i];
        assert(is_ascii_lower(c) || is_ascii_digit(c) || (c == '_' && i + 1 < s.len() && is_ascii_lower(s[i + 1])));
        if c == '_' {
            assert(i > 0);
            assert(s[i - 1] != '_') by {
                assert(is_ascii_lower(s[i - 1]) || is_ascii_digit(s[i - 1]) || (s[i - 1] == '_' && is_ascii_lower(s[i])));
            }
            assert(p =~= q);
        } else if i == 0 || s[i - 1] == '_' {
            let up = shift_case(c, true);
            assert(is_ascii_lower(c)) by {
                if i > 0 {
                    assert(is_ascii_lower(s[i - 1]) || is_ascii_digit(s[i - 1]) || (s[i - 1] == '_' && i < s.len()
                        && is_ascii_lower(s[i])));
                }
            }
            assert(spec_pascal_piece(s, i) == seq![up]);
            assert(p =~= q.push(up));
            lemma_snake_push(q, up);
            assert(is_ascii_upper(up));
            assert(shift_case(up, false) == c);
            if i == 0 {
                assert(spec_snake_piece(q.push(up), q.len() as int) =~= seq![c]);
                assert(s.take(1) =~= seq![c]);
            } else {
                assert(spec_snake_piece(q.push(up), q.len() as int) =~= seq!['_', c]);
                assert(s.take(n as int) =~= s.take(i - 1) + seq!['_', c]);
            }
        } else {
            assert(spec_pascal_piece(s, i) == seq![c]);
            assert(p =~= q.push(c));
            lemma_snake_push(q, c);
            assert(!spec_is_upper(c));
            assert(spec_snake_piece(q.push(c), q.len() as int) =~= seq![c]);
            assert(s.take(n as int) =~= s.take(i) + seq![c]);
        }
    }
}

/// Turning an ASCII lower `snake_case` name into `PascalCase` and back gives
/// the name again.
pub proof fn law_snake_of_pascal(x: Seq<char>)
    requires
        spec_is_snake_word(spec_unraw(x)),
    ensures
        spec_snake(spec_unraw(spec_pascal(spec_unraw(x)))) == spec_unraw(x),
{
    let s = spec_unraw(x);
    lemma_snake_of_pascal_prefix(s, s.len());
    let last = s.len() - 1;
    assert(s[last] != '_') by {
        assert(is_ascii_lower(s[last]) || is_ascii_digit(s[last]) || (s[last] == '_' && last + 1 < s.len()));
    }
    assert(s.take(s.len() as int) =~= s);
    let p = spec_pascal(s);
    assert(p[0] == shift_case(s[0], true));
    assert(p[0] != 'r');
    assert(spec_unraw(p) == p);
}

/// The decimal digit character for a value below ten.
pub open spec fn spec_digit(d: int) -> char {
    if d == 0 {
        '0'
    } else if d == 1 {
        '1'
    } else if d == 2 {
        '2'
    } else if d == 3 {
        '3'
    } else if d == 4 {
        '4'
    } else if d == 5 {
        '5'
    } else if d == 6 {
        '6'
    } else if d == 7 {
        '7'
    } else if d == 8 {
        '8'
    } else {
        '9'
    }
}

/// The decimal notation of a natural number, without leading zeros.
pub open spec fn spec_decimal(n: nat) -> Seq<char>
    decreases n,
{
    if n < 10 {
        seq![spec_digit(n as int)]
    } else {
        spec_decimal(n / 10).push(spec_digit((n % 10) as int))
    }
}

fn digit(d: usize) -> (c: char)
    requires
        d < 10,
    ensures
        c == spec_digit(d as int),
{
    if d == 0 {
        '0'
    } else if d == 1 {
        '1'
    } else if d == 2 {
        '2'
    } else if d == 3 {
        '3'
    } else if d == 4 {
        '4'
    } else if d == 5 {
        '5'
    } else if d == 6 {
        '6'
    } else if d == 7 {
        '7'
    } else if d == 8 {
        '8'
    } else {
        '9'
    }
}

/// The decimal notation of `n`.
pub fn decimal(n: usize) -> (r: String)
    ensures
        r@ == spec_decimal(n as nat),
    decreases n,
{
    if n < 10 {
        let mut s = String::new();
        push_char(&mut s, digit(n));
        proof {
            assert(s@ =~= seq![spec_digit(n as int)]);
        }
        s
    } else {
        let mut s = decimal(n / 10);
        push_char(&mut s, digit(n % 10));
        s
    }
}

proof fn lemma_digit_injective(a: int, b: int)
    requires
        0 <= a < 10,
        0 <= b < 10,
        spec_digit(a) == spec_digit(b),
    ensures
        a == b,
{
}

proof fn lemma_decimal_len(n: nat)
    ensures
        spec_decimal(n).len() >= 1,
        n >= 10 ==> spec_decimal(n).len() >= 2,
    decreases n,
{
    if n >= 10 {
        lemma_decimal_len(n / 10);
    }
}

/// Different numbers have different decimal notations.
pub proof fn lemma_decimal_injective(a: nat, b: nat)
    requires
        spec_decimal(a) == spec_decimal(b),
    ensures
        a == b,
    decreases a,
{
    lemma_decimal_len(a);
    lemma_decimal_len(b);
    if a < 10 && b < 10 {
        assert(spec_decimal(a)[0] == spec_digit(a as int));
        assert(spec_decimal(b)[0] == spec_digit(b as int));
        lemma_digit_injective(a as int, b as int);
    } else if a >= 10 && b >= 10 {
        let da = spec_decimal(a);
        let db = spec_decimal(b);
        assert(da.last() == spec_digit((a % 10) as int));
        assert(db.last() == spec_digit((b % 10) as int));
        lemma_digit_injective((a % 10) as int, (b % 10) as int);
        assert(da.drop_last() =~= spec_decimal(a / 10));
        assert(db.drop_last() =~= spec_decimal(b / 10));
        lemma_decimal_injective(a / 10, b / 10);
    } else {
        assert(spec_decimal(a).len() != spec_decimal(b).len());
    }
}

/// The names of a list of strings.
pub open spec fn names(v: Seq<String>) -> Seq<Seq<char>> {
    v.map_values(|s: String| s@)
}

/// Naming a list with one more string names one more text.
pub proof fn lemma_names_push(v: Seq<String>, s: String)
    ensures
        names(v.push(s)) == names(v).push(s@),
        names(v).len() == v.len(),
{
    assert(names(v.push(s)) =~= names(v).push(s@));
}

/// Whether a list of strings holds the given text.
pub fn contains_name(v: &Vec<String>, s: &String) -> (r: bool)
    ensures
        r == names(v@).contains(s@),
{
    let mut i: usize = 0;
    while i < v.len()
        invariant
            i <= v@.len(),
            forall|j: int| 0 <= j < i ==> v@[j]@ != s@,
        decreases v.len() - i,
    {
        if v[i] == *s {
            assert(names(v@)[i as int] == s@);
            return true;
        }
        i = i + 1;
    }
    assert forall|j: int| 0 <= j < names(v@).len() implies names(v@)[j] != s@ by {
        assert(names(v@)[j] == v@[j]@);
    }
    false
}

/// Candidate `prefix` followed by the decimal notation of `k`.
pub open spec fn numbered(prefix: Seq<char>, k: nat) -> Seq<char> {
    prefix + spec_decimal(k)
}

/// The first numbered candidate, counting up from `k`, that `used` does not
/// hold, looking at no more than `fuel` further candidates.
pub open spec fn spec_first_free_from(prefix: Seq<char>, k: nat, used: Seq<Seq<char>>, fuel: nat) -> Seq<
    char,
>
    decreases fuel,
{
    if fuel == 0 || !used.contains(numbered(prefix, k)) {
        numbered(prefix, k)
    } else {
        spec_first_free_from(prefix, k + 1, used, (fuel - 1) as nat)
    }
}

/// `first` when no used name equals it; otherwise the first of
/// `prefix` + `start`, `prefix` + `start + 1`, ... that no used name equals.
pub open spec fn spec_free_name(first: Seq<char>, prefix: Seq<char>, start: nat, used: Seq<Seq<char>>) -> Seq<
    char,
> {
    if !used.contains(first) {
        first
    } else {
        spec_first_free_from(prefix, start, used, used.len())
    }
}

proof fn lemma_numbered_injective(prefix: Seq<char>, a: nat, b: nat)
    requires
        numbered(prefix, a) == numbered(prefix, b),
    ensures
        a == b,
{
    assert(numbered(prefix, a).skip(prefix.len() as int) =~= spec_decimal(a));
    assert(numbered(prefix, b).skip(prefix.len() as int) =~= spec_decimal(b));
    lemma_decimal_injective(a, b);
}

/// No list of `n` names holds all of `n + 1` distinct numbered candidates.
proof fn lemma_candidates_escape(prefix: Seq<char>, start: nat, used: Seq<Seq<char>>)
    ensures
        exists|j: nat| start <= j <= start + used.len() && !used.contains(#[trigger] numbered(prefix, j)),
{
    if forall|j: nat| start <= j <= start + used.len() ==> used.contains(#[trigger] numbered(prefix, j)) {
    let n = used.len();
    let c = Seq::new(n + 1, |i: int| numbered(prefix, (start + i) as nat));
    assert forall|i: int, j: int| 0 <= i < c.len() && 0 <= j < c.len() && i != j implies c[i]
        != c[j] by {
        if c[i] == c[j] {
            lemma_numbered_injective(prefix, (start + i) as nat, (start + j) as nat);
        }
    }
    assert(c.no_duplicates());
    c.unique_seq_to_set();
    used.lemma_cardinality_of_set();
    assert forall|x: Seq<char>| c.to_set().contains(x) implies used.to_set().contains(x) by {
        let i = choose|i: int| 0 <= i < c.len() && c[i] == x;
        let j = (start + i) as nat;
        assert(numbered(prefix, j) == c[i]);
        assert(used.contains(numbered(prefix, j)));
    }
    lemma_len_subset(c.to_set(), used.to_set());
    }
}

proof fn lemma_first_free_escapes(prefix: Seq<char>, start: nat, k: nat, used: Seq<Seq<char>>)
    requires
        start <= k <= start + used.len(),
        forall|j: nat| start <= j < k ==> used.contains(#[trigger] numbered(prefix, j)),
    ensures
        !used.contains(spec_first_free_from(prefix, k, used, (start + used.len() - k) as nat)),
    decreases start + used.len() - k,
{
    let fuel = (start + used.len() - k) as nat;
    if !used.contains(numbered(prefix, k)) {
    } else if fuel == 0 {
        lemma_candidates_escape(prefix, start, used);
        let j = choose|j: nat| start <= j <= start + used.len() && !used.contains(#[trigger] numbered(prefix, j));
        assert(j >= k);
    } else {
        lemma_first_free_escapes(prefix, start, k + 1, used);
    }
}

/// No list of used names holds the name that [`spec_free_name`] picks.
pub proof fn lemma_free_name_is_free(first: Seq<char>, prefix: Seq<char>, start: nat, used: Seq<Seq<char>>)
    ensures
        !used.contains(spec_free_name(first, prefix, start, used)),
{
    if used.contains(first) {
        lemma_first_free_escapes(prefix, start, start, used);
    }
}

proof fn lemma_first_free_minimal(prefix: Seq<char>, k: nat, used: Seq<Seq<char>>, fuel: nat)
    ensures
        exists|n: nat|
            k <= n && spec_first_free_from(prefix, k, used, fuel) == numbered(prefix, n) && forall|j: nat|
                k <= j < n ==> used.contains(#[trigger] numbered(prefix, j)),
    decreases fuel,
{
    if fuel == 0 || !used.contains(numbered(prefix, k)) {
        assert(spec_first_free_from(prefix, k, used, fuel) == numbered(prefix, k));
    } else {
        lemma_first_free_minimal(prefix, k + 1, used, (fuel - 1) as nat);
        let n = choose|n: nat|
            k + 1 <= n && spec_first_free_from(prefix, k + 1, used, (fuel - 1) as nat) == numbered(prefix, n)
                && forall|j: nat| k + 1 <= j < n ==> used.contains(#[trigger] numbered(prefix, j));
        assert forall|j: nat| k <= j < n implies used.contains(#[trigger] numbered(prefix, j)) by {
            if j > k {
                assert(k + 1 <= j < n);
            }
        }
    }
}

/// When `used` holds `first`, the name picked is the numbered candidate
/// with the smallest number from `start` whose name `used` does not hold.
pub proof fn lemma_free_name_minimal(first: Seq<char>, prefix: Seq<char>, start: nat, used: Seq<Seq<char>>)
    requires
        used.contains(first),
    ensures
        exists|n: nat|
            start <= n && spec_free_name(first, prefix, start, used) == numbered(prefix, n) && forall|j: nat|
                start <= j < n ==> used.contains(#[trigger] numbered(prefix, j)),
{
    lemma_first_free_minimal(prefix, start, used, used.len());
}

/// `first` when `used` does not hold it; otherwise `prefix` followed by the
/// smallest number from `start` up whose name `used` does not hold.
pub fn free_name(first: &String, prefix: &String, start: usize, used: &Vec<String>) -> (r: String)
    requires
        start + used@.len() <= usize::MAX,
    ensures
        r@ == spec_free_name(first@, prefix@, start as nat, names(used@)),
        !names(used@).contains(r@),
{
    proof {
        lemma_free_name_is_free(first@, prefix@, start as nat, names(used@));
    }
    if !contains_name(used, first) {
        return first.clone();
    }
    let ghost u = names(used@);
    let n = used.len();
    assert(u.len() == n);
    let mut k = start;
    loop
        invariant
            start <= k <= start + n,
            n == u.len(),
            u == names(used@),
            u.contains(first@),
            !u.contains(spec_free_name(first@, prefix@, start as nat, u)),
            start + n <= usize::MAX,
            spec_first_free_from(prefix@, start as nat, u, n as nat) == spec_first_free_from(
                prefix@,
                k as nat,
                u,
                (start + n - k) as nat,
            ),
        decreases start + n - k,
    {
        let digits = decimal(k);
        let candidate = concat(prefix.as_str(), digits.as_str());
        assert(candidate@ == numbered(prefix@, k as nat));
        if !contains_name(used, &candidate) || k == start + n {
            assert(spec_first_free_from(prefix@, k as nat, u, (start + n - k) as nat) == candidate@);
            return candidate;
        }
        k = k + 1;
    }
}

/// Whether `a` sorts before `b`, character by character (the order of
/// Rust's `String`).
pub open spec fn spec_text_lt(a: Seq<char>, b: Seq<char>) -> bool
    decreases a.len(),
{
    if b.len() == 0 {
        false
    } else if a.len() == 0 {
        true
    } else if a[0] != b[0] {
        (a[0] as u32) < (b[0] as u32)
    } else {
        spec_text_lt(a.drop_first(), b.drop_first())
    }
}

/// The order is transitive.
pub proof fn lemma_text_lt_transitive(a: Seq<char>, b: Seq<char>, c: Seq<char>)
    requires
        spec_text_lt(a, b),
        spec_text_lt(b, c),
    ensures
        spec_text_lt(a, c),
    decreases a.len(),
{
    if a.len() > 0 && b.len() > 0 && c.len() > 0 && a[0] == b[0] && b[0] == c[0] {
        lemma_text_lt_transitive(a.drop_first(), b.drop_first(), c.drop_first());
    }
}

/// Whether `a` sorts before `b`.
pub fn text_lt(a: &str, b: &str) -> (r: bool)
    ensures
        r == spec_text_lt(a@, b@),
{
    let x = chars_of(a);
    let y = chars_of(b);
    let mut i: usize = 0;
    assert(a@.skip(0) =~= a@);
    assert(b@.skip(0) =~= b@);
    while i < x.len() && i < y.len()
        invariant
            i <= x@.len(),
            i <= y@.len(),
            x@ == a@,
            y@ == b@,
            spec_text_lt(a@, b@) == spec_text_lt(a@.skip(i as int), b@.skip(i as int)),
        decreases x.len() - i,
    {
        if x[i] != y[i] {
            return (x[i] as u32) < (y[i] as u32);
        }
        assert(a@.skip(i as int).drop_first() =~= a@.skip(i + 1));
        assert(b@.skip(i as int).drop_first() =~= b@.skip(i + 1));
        i = i + 1;
    }
    i < y.len()
}

} // verus!
