use vstd::prelude::*;
use vstd::string::StrSliceExecFns;

verus! {

/// What Unicode lower-casing yields on the given characters. A fixed
/// function of the characters alone.
pub uninterp spec fn lower_of(s: Seq<char>) -> Seq<char>;

/// Relies on `str::to_lowercase`: the result depends on the characters alone.
#[verifier::external_body]
fn lowercase(s: &str) -> (r: String)
    ensures
        r@ == lower_of(s@),
{
    s.to_lowercase()
}

/// Character-for-character equality of two string slices.
pub fn str_eq(a: &str, b: &str) -> (r: bool)
    ensures
        r == (a@ == b@),
{
    let la = a.unicode_len();
    let lb = b.unicode_len();
    if la != lb {
        return false;
    }
    let mut i: usize = 0;
    while i < la
        invariant
            la == a@.len(),
            la == b@.len(),
            i <= la,
            forall|j: int| 0 <= j < i ==> a@[j] == b@[j],
        decreases la - i,
    {
        if a.get_char(i) != b.get_char(i) {
            return false;
        }
        i = i + 1;
    }
    proof {
        assert(a@ =~= b@);
    }
    true
}

/// The lower-cased command words the library reacts to.
pub open spec fn is_command(s: Seq<char>) -> bool {
    ||| s == "gif帮助"@
    ||| s == "gifhelp"@
    ||| s == "合成gif"@
    ||| s == "gif变速"@
    ||| s == "gif倒放"@
    ||| s == "gif信息"@
    ||| s == "gif缩放"@
    ||| s == "gif旋转"@
    ||| s == "gif翻转"@
    ||| s == "gif拆分"@
    ||| s == "gif拼图"@
}

/// Match an input word against the command list, ignoring case: the
/// canonical command when the lower-cased input is one, nothing otherwise.
pub fn match_command(input: &str) -> (r: Option<&'static str>)
    ensures
        match r {
            Some(c) => c@ == lower_of(input@) && is_command(lower_of(input@)),
            None => !is_command(lower_of(input@)),
        },
{
    let low = lowercase(input);
    let l = low.as_str();
    if str_eq(l, "gif帮助") {
        return Some("gif帮助");
    }
    if str_eq(l, "gifhelp") {
        return Some("gifhelp");
    }
    if str_eq(l, "合成gif") {
        return Some("合成gif");
    }
    if str_eq(l, "gif变速") {
        return Some("gif变速");
    }
    if str_eq(l, "gif倒放") {
        return Some("gif倒放");
    }
    if str_eq(l, "gif信息") {
        return Some("gif信息");
    }
    if str_eq(l, "gif缩放") {
        return Some("gif缩放");
    }
    if str_eq(l, "gif旋转") {
        return Some("gif旋转");
    }
    if str_eq(l, "gif翻转") {
        return Some("gif翻转");
    }
    if str_eq(l, "gif拆分") {
        return Some("gif拆分");
    }
    if str_eq(l, "gif拼图") {
        return Some("gif拼图");
    }
    None
}

/// Whether a command needs a source image: all of them but the help words.
pub fn requires_image(cmd: &str) -> (r: bool)
    ensures
        r == !(cmd@ == "gif帮助"@ || cmd@ == "gifhelp"@),
{
    let help = str_eq(cmd, "gif帮助") || str_eq(cmd, "gifhelp");
    !help
}

/// A decimal digit. The grammar is defined over the ASCII digits `0`-`9`
/// alone: other scripts' digits neither match nor carry a value here.
pub open spec fn is_digit(c: char) -> bool {
    48 <= c as u32 <= 57
}

/// Whitespace accepted between the two numbers and the separator: the ASCII
/// space and control whitespace alone.
pub open spec fn is_space(c: char) -> bool {
    c as u32 == 32 || 9 <= c as u32 <= 13
}

/// A separator between the two numbers: an `x` of either case, an asterisk,
/// or the multiplication sign.
pub open spec fn is_sep(c: char) -> bool {
    c as u32 == 120 || c as u32 == 88 || c as u32 == 42 || c as u32 == 215
}

/// End of the run of digits starting at `i`.
pub open spec fn digit_end(s: Seq<char>, i: int) -> int
    recommends
        0 <= i <= s.len(),
    decreases s.len() - i,
{
    if i < s.len() && is_digit(s[i]) { digit_end(s, i + 1) } else { i }
}

/// End of the run of whitespace starting at `i`.
pub open spec fn space_end(s: Seq<char>, i: int) -> int
    recommends
        0 <= i <= s.len(),
    decreases s.len() - i,
{
    if i < s.len() && is_space(s[i]) { space_end(s, i + 1) } else { i }
}

/// A dimension phrase starts at `i`: digits, optional whitespace, a
/// separator, optional whitespace, digits.
pub open spec fn matchable(s: Seq<char>, i: int) -> bool {
    &&& 0 <= i < s.len()
    &&& is_digit(s[i])
    &&& {
        let j2 = space_end(s, digit_end(s, i));
        &&& j2 < s.len()
        &&& is_sep(s[j2])
        &&& {
            let j3 = space_end(s, j2 + 1);
            j3 < s.len() && is_digit(s[j3])
        }
    }
}

/// Leftmost position at or after `i` where a dimension phrase starts;
/// the length when there is none.
pub open spec fn first_match(s: Seq<char>, i: int) -> int
    recommends
        0 <= i <= s.len(),
    decreases s.len() - i,
{
    if i >= s.len() {
        s.len() as int
    } else if matchable(s, i) {
        i
    } else {
        first_match(s, i + 1)
    }
}

/// Numeric value of the digits `s[i..j]`.
pub open spec fn digits_val(s: Seq<char>, i: int, j: int) -> int
    recommends
        0 <= i <= j <= s.len(),
    decreases j - i,
{
    if j <= i { 0 } else { digits_val(s, i, j - 1) * 10 + (s[j - 1] as u32 - 48) }
}

/// Every character of `s[i..j]` is a digit.
pub open spec fn all_digits(s: Seq<char>, i: int, j: int) -> bool {
    forall|k: int| i <= k < j ==> is_digit(#[trigger] s[k])
}

/// What parsing a dimension phrase such as `3x3` out of `s` yields: the two
/// numbers of the leftmost phrase, provided both are positive and fit the
/// dimension type; nothing otherwise.
pub open spec fn parse_dims(s: Seq<char>) -> Option<(u32, u32)> {
    let p = first_match(s, 0);
    if p == s.len() {
        Option::None
    } else {
        let j1 = digit_end(s, p);
        let j2 = space_end(s, j1);
        let j3 = space_end(s, j2 + 1);
        let j4 = digit_end(s, j3);
        let a = digits_val(s, p, j1);
        let b = digits_val(s, j3, j4);
        if 0 < a <= u32::MAX && 0 < b <= u32::MAX {
            Option::Some((a as u32, b as u32))
        } else {
            Option::None
        }
    }
}

/// A decimal digit, decided on the character's code point.
fn is_digit_exec(c: char) -> (r: bool)
    ensures
        r == is_digit(c),
{
    let u = c as u32;
    48 <= u && u <= 57
}

/// Whitespace, decided on the character's code point.
fn is_space_exec(c: char) -> (r: bool)
    ensures
        r == is_space(c),
{
    let u = c as u32;
    u == 32 || (9 <= u && u <= 13)
}

/// A separator, decided on the character's code point.
fn is_sep_exec(c: char) -> (r: bool)
    ensures
        r == is_sep(c),
{
    let u = c as u32;
    u == 120 || u == 88 || u == 42 || u == 215
}

/// Walk to the end of the digit run starting at `i`.
fn digit_end_exec(v: &Vec<char>, i: usize) -> (r: usize)
    requires
        i <= v@.len(),
    ensures
        r as int == digit_end(v@, i as int),
        i <= r <= v@.len(),
        all_digits(v@, i as int, r as int),
        r < v@.len() ==> !is_digit(v@[r as int]),
    decreases v@.len() - i,
{
    let n = v.len();
    let mut j = i;
    while j < n
        invariant
            i <= j <= n,
            n == v@.len(),
            all_digits(v@, i as int, j as int),
            digit_end(v@, i as int) == digit_end(v@, j as int),
        decreases n - j,
    {
        if !is_digit_exec(v[j]) {
            return j;
        }
        proof {
            assert(digit_end(v@, j as int) == digit_end(v@, j as int + 1));
        }
        j = j + 1;
    }
    j
}

/// Walk to the end of the whitespace run starting at `i`.
fn space_end_exec(v: &Vec<char>, i: usize) -> (r: usize)
    requires
        i <= v@.len(),
    ensures
        r as int == space_end(v@, i as int),
        i <= r <= v@.len(),
{
    let n = v.len();
    let mut j = i;
    while j < n
        invariant
            i <= j <= n,
            n == v@.len(),
            space_end(v@, i as int) == space_end(v@, j as int),
        decreases n - j,
    {
        if !is_space_exec(v[j]) {
            return j;
        }
        proof {
            assert(space_end(v@, j as int) == space_end(v@, j as int + 1));
        }
        j = j + 1;
    }
    j
}

/// Does a dimension phrase start at `p`?
fn matchable_exec(v: &Vec<char>, p: usize) -> (r: bool)
    requires
        p <= v@.len(),
    ensures
        r == matchable(v@, p as int),
{
    let n = v.len();
    if p >= n {
        return false;
    }
    if !is_digit_exec(v[p]) {
        return false;
    }
    let j1 = digit_end_exec(v, p);
    let j2 = space_end_exec(v, j1);
    if j2 >= n {
        return false;
    }
    if !is_sep_exec(v[j2]) {
        return false;
    }
    let j3 = space_end_exec(v, j2 + 1);
    if j3 >= n {
        return false;
    }
    is_digit_exec(v[j3])
}

/// Read the value of the digits `v[i..j]`: the number when it is positive
/// and fits the dimension type, nothing otherwise.
fn digits_val_exec(v: &Vec<char>, i: usize, j: usize) -> (r: Option<u32>)
    requires
        i <= j <= v@.len(),
        all_digits(v@, i as int, j as int),
    ensures
        r is Some <==> 0 < digits_val(v@, i as int, j as int) <= u32::MAX,
        r matches Some(x) ==> x as int == digits_val(v@, i as int, j as int),
{
    let mut acc: u64 = 0;
    let mut over = false;
    let mut k = i;
    while k < j
        invariant
            i <= k <= j <= v@.len(),
            all_digits(v@, i as int, j as int),
            !over ==> acc as int == digits_val(v@, i as int, k as int) && acc <= u32::MAX,
            over ==> digits_val(v@, i as int, k as int) > u32::MAX,
        decreases j - k,
    {
        let c = v[k];
        proof {
            assert(is_digit(v@[k as int]));
        }
        let d: u64 = ((c as u32) - 48) as u64;
        proof {
            assert(digits_val(v@, i as int, k as int + 1) == digits_val(v@, i as int, k as int)
                * 10 + d);
        }
        if !over {
            let next: u64 = acc * 10 + d;
            if next > u32::MAX as u64 {
                over = true;
            } else {
                acc = next;
            }
        }
        k = k + 1;
    }
    if over {
        None
    } else if acc == 0 {
        None
    } else {
        Some(acc as u32)
    }
}

/// Parse a dimension phrase such as `3x3`, `3 * 3` or `3×3` out of `s`:
/// the two numbers of the leftmost such phrase, both positive and within
/// the dimension type; nothing when no phrase is found or a number is out
/// of range. Digits and whitespace are the ASCII ones; a phrase written
/// with other scripts' digits is not matched.
pub fn parse_grid_dim(s: &str) -> (r: Option<(u32, u32)>)
    ensures
        r == parse_dims(s@),
{
    let n = s.unicode_len();
    let mut v: Vec<char> = Vec::new();
    let mut i: usize = 0;
    while i < n
        invariant
            n == s@.len(),
            i <= n,
            v@.len() == i,
            forall|k: int| 0 <= k < i ==> v@[k] == s@[k],
        decreases n - i,
    {
        v.push(s.get_char(i));
        i = i + 1;
    }
    proof {
        assert(v@ =~= s@);
    }
    let mut p: usize = 0;
    let mut found = false;
    while !found && p < n
        invariant
            p <= n,
            n == v@.len(),
            v@ == s@,
            found ==> p < n && matchable(s@, p as int),
            first_match(s@, 0) == first_match(s@, p as int),
        decreases n - p, 1int - (if found { 1int } else { 0int }),
    {
        if matchable_exec(&v, p) {
            found = true;
        } else {
            proof {
                assert(first_match(s@, p as int) == first_match(s@, p as int + 1));
            }
            p = p + 1;
        }
    }
    if !found {
        return None;
    }
    proof {
        assert(first_match(s@, 0) == p as int);
    }
    let j1 = digit_end_exec(&v, p);
    let j2 = space_end_exec(&v, j1);
    let j3 = space_end_exec(&v, j2 + 1);
    let j4 = digit_end_exec(&v, j3);
    let a = match digits_val_exec(&v, p, j1) {
        Some(x) => x,
        None => {
            return None;
        },
    };
    let b = match digits_val_exec(&v, j3, j4) {
        Some(x) => x,
        None => {
            return None;
        },
    };
    Some((a, b))
}

} // verus!
