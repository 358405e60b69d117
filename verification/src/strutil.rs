//! Text helpers the engines share: decimal rendering and parsing, and
//! path-extension extraction over plain strings.

use vstd::prelude::*;

verus! {

/// The decimal digit character for `d`.
pub open spec fn digit_char(d: int) -> char {
    if d == 0 {
        '0'
    } else if d == 1 {
        '1'
    } else if d == 2 {
        '2'
    } else if d == 3 {
        '3'
    } else if d == 4 {
        '4'
    } else if d == 5 {
        '5'
    } else if d == 6 {
        '6'
    } else if d == 7 {
        '7'
    } else if d == 8 {
        '8'
    } else {
        '9'
    }
}

/// The decimal rendering of a non-negative number.
pub open spec fn u64_dec(n: int) -> Seq<char>
    decreases n,
{
    if n < 10 {
        seq![digit_char(n)]
    } else {
        u64_dec(n / 10).push(digit_char(n % 10))
    }
}

fn digit_str(d: u64) -> (r: &'static str)
    requires
        d < 10,
    ensures
        r@ =~= seq![digit_char(d as int)],
{
    proof {
        reveal_strlit("0");
        reveal_strlit("1");
        reveal_strlit("2");
        reveal_strlit("3");
        reveal_strlit("4");
        reveal_strlit("5");
        reveal_strlit("6");
        reveal_strlit("7");
        reveal_strlit("8");
        reveal_strlit("9");
    }
    match d {
        0 => "0",
        1 => "1",
        2 => "2",
        3 => "3",
        4 => "4",
        5 => "5",
        6 => "6",
        7 => "7",
        8 => "8",
        _ => "9",
    }
}

/// Renders `n` in decimal.
pub fn u64_to_string(n: u64) -> (r: String)
    ensures
        r@ == u64_dec(n as int),
    decreases n,
{
    if n < 10 {
        String::from_str(digit_str(n))
    } else {
        let mut s = u64_to_string(n / 10);
        let d = digit_str(n % 10);
        let ghost before = s@;
        s.append(d);
        proof {
            assert(s@ =~= before.push(digit_char((n % 10) as int)));
        }
        s
    }
}

/// Whether `c` is a decimal digit.
pub open spec fn is_digit(c: char) -> bool {
    '0' as int <= c as int <= '9' as int
}

/// The value of a digit character.
pub open spec fn digit_val(c: char) -> int {
    c as int - '0' as int
}

/// Whether every character is a decimal digit.
pub open spec fn all_digits(s: Seq<char>) -> bool {
    forall|i: int| 0 <= i < s.len() ==> is_digit(#[trigger] s[i])
}

/// The number an all-digit string denotes.
pub open spec fn digits_val(s: Seq<char>) -> int
    decreases s.len(),
{
    if s.len() == 0 {
        0
    } else {
        digits_val(s.drop_last()) * 10 + digit_val(s.last())
    }
}

proof fn lemma_digits_val_nonneg(s: Seq<char>)
    requires
        all_digits(s),
    ensures
        digits_val(s) >= 0,
    decreases s.len(),
{
    if s.len() > 0 {
        assert(all_digits(s.drop_last())) by {
            assert(forall|i: int| 0 <= i < s.len() - 1 ==> s.drop_last()[i] == s[i]);
        }
        lemma_digits_val_nonneg(s.drop_last());
        assert(is_digit(s.last()));
    }
}

proof fn lemma_digits_val_prefix_le(s: Seq<char>, k: int)
    requires
        all_digits(s),
        0 <= k <= s.len(),
    ensures
        digits_val(s.take(k)) <= digits_val(s),
    decreases s.len() - k,
{
    if k < s.len() {
        lemma_digits_val_prefix_le(s, k + 1);
        let p = s.take(k + 1);
        assert(p.drop_last() =~= s.take(k));
        assert(all_digits(s.take(k))) by {
            assert(forall|i: int| 0 <= i < k ==> s.take(k)[i] == s[i]);
        }
        lemma_digits_val_nonneg(s.take(k));
        assert(p.last() == s[k]);
        assert(is_digit(s[k]));
        assert(digits_val(p) == digits_val(s.take(k)) * 10 + digit_val(s[k]));
        assert(digits_val(s.take(k)) * 10 >= digits_val(s.take(k))) by (nonlinear_arith)
            requires
                digits_val(s.take(k)) >= 0,
        ;
    } else {
        assert(s.take(k) =~= s);
    }
}

/// Parses a decimal number: succeeds exactly on non-empty all-digit
/// strings whose value fits in a `u64`, and returns that value.
pub fn parse_u64(s: &str) -> (r: Option<u64>)
    ensures
        match r {
            Some(v) => s@.len() > 0 && all_digits(s@) && digits_val(s@) == v,
            None => s@.len() == 0 || !all_digits(s@) || digits_val(s@) > u64::MAX,
        },
{
    let n = s.unicode_len();
    if n == 0 {
        return None;
    }
    let mut acc: u64 = 0;
    let mut i: usize = 0;
    while i < n
        invariant
            0 <= i <= n,
            n == s@.len(),
            all_digits(s@.take(i as int)),
            acc == digits_val(s@.take(i as int)),
        decreases n - i,
    {
        let c = s.get_char(i);
        let cv = c as u32;
        if cv < 48 || cv > 57 {
            proof {
                assert(!is_digit(s@[i as int]));
            }
            return None;
        }
        let d = (cv - 48) as u64;
        proof {
            assert(is_digit(s@[i as int]));
            assert(d == digit_val(s@[i as int]));
            assert(s@.take(i + 1).drop_last() =~= s@.take(i as int));
            assert(s@.take(i + 1).last() == s@[i as int]);
            assert(all_digits(s@.take(i + 1))) by {
                assert(forall|j: int| 0 <= j < i ==> s@.take(i + 1)[j] == s@.take(i as int)[j]);
            }
        }
        if acc > (u64::MAX - d) / 10 {
            proof {
                assert(digits_val(s@.take(i + 1)) == acc * 10 + d);
                assert(acc * 10 + d > u64::MAX) by (nonlinear_arith)
                    requires
                        acc > (u64::MAX - d) / 10,
                        d < 10,
                        acc >= 0,
                ;
                if all_digits(s@) {
                    lemma_digits_val_prefix_le(s@, i + 1);
                    assert(digits_val(s@) > u64::MAX);
                }
            }
            return None;
        }
        proof {
            assert(acc * 10 + d <= u64::MAX) by (nonlinear_arith)
                requires
                    acc <= (u64::MAX - d) / 10,
                    d < 10,
                    acc >= 0,
            ;
        }
        acc = acc * 10 + d;
        i = i + 1;
    }
    proof {
        assert(s@.take(i as int) =~= s@);
    }
    Some(acc)
}

/// The first position of a `--version` flag that has a value after it.
pub open spec fn find_version_flag(args: Seq<Seq<char>>, from: int) -> Option<int>
    decreases args.len() - from,
{
    if from < 0 || from >= args.len() {
        None
    } else if args[from] == "--version"@ && from + 1 < args.len() {
        Some(from)
    } else {
        find_version_flag(args, from + 1)
    }
}

/// Reads the value of a `--version` flag from an argument list: the
/// argument after the first `--version` that has one, parsed as a decimal
/// number; nothing when the flag is absent, dangling, or its value does
/// not parse.
pub fn parse_version(args: &Vec<String>) -> (r: Option<u64>)
    ensures
        match find_version_flag(args.deep_view(), 0) {
            Some(p) => ({
                let t = args.deep_view()[p + 1];
                match r {
                    Some(v) => t.len() > 0 && all_digits(t) && digits_val(t) == v,
                    None => t.len() == 0 || !all_digits(t) || digits_val(t) > u64::MAX,
                }
            }),
            None => r is None,
        },
{
    let flag = String::from_str("--version");
    let ghost av = args.deep_view();
    let mut i: usize = 0;
    while i < args.len()
        invariant
            0 <= i <= args@.len(),
            av == args.deep_view(),
            av.len() == args@.len(),
            flag@ == "--version"@,
            find_version_flag(av, 0) == find_version_flag(av, i as int),
        decreases args@.len() - i,
    {
        let hit = args[i].eq(&flag);
        proof {
            assert(av[i as int] == args@[i as int]@);
        }
        if hit && i + 1 < args.len() {
            proof {
                assert(find_version_flag(av, i as int) == Some(i as int));
            }
            return parse_u64(args[i + 1].as_str());
        }
        proof {
            assert(find_version_flag(av, i as int) == find_version_flag(av, i + 1));
        }
        i = i + 1;
    }
    None
}

/// Whether `s` occurs among `v`'s strings.
pub fn vec_contains_string(v: &Vec<String>, s: &String) -> (r: bool)
    ensures
        r == v.deep_view().contains(s@),
{
    let ghost dv = v.deep_view();
    let mut i: usize = 0;
    while i < v.len()
        invariant
            0 <= i <= v@.len(),
            dv == v.deep_view(),
            dv.len() == v@.len(),
            forall|j: int| 0 <= j < i ==> (#[trigger] dv[j]) != s@,
        decreases v@.len() - i,
    {
        let hit = v[i].eq(s);
        proof {
            assert(dv[i as int] == v@[i as int]@);
        }
        if hit {
            proof {
                assert(dv[i as int] == s@);
            }
            return true;
        }
        i = i + 1;
    }
    proof {
        if dv.contains(s@) {
            let j = choose|j: int| 0 <= j < dv.len() && dv[j] == s@;
            assert(dv[j] != s@);
        }
    }
    false
}

/// The last position of `c` in `s`, or -1 when `c` does not occur.
pub open spec fn last_index_of(s: Seq<char>, c: char) -> int
    decreases s.len(),
{
    if s.len() == 0 {
        -1
    } else if s.last() == c {
        s.len() - 1
    } else {
        last_index_of(s.drop_last(), c)
    }
}

pub proof fn lemma_last_index_of_props(s: Seq<char>, c: char)
    ensures
        -1 <= last_index_of(s, c) < s.len(),
        last_index_of(s, c) >= 0 ==> s[last_index_of(s, c)] == c,
        forall|j: int| last_index_of(s, c) < j < s.len() ==> s[j] != c,
    decreases s.len(),
{
    if s.len() > 0 && s.last() != c {
        lemma_last_index_of_props(s.drop_last(), c);
        assert(forall|j: int| 0 <= j < s.len() - 1 ==> s[j] == s.drop_last()[j]);
    }
}

/// The extension of a path, read as the file-system does: the part of the
/// final component after its last dot; none when the component has no dot
/// or its only dot leads it (a hidden file has no extension).
pub open spec fn extension_of(path: Seq<char>) -> Option<Seq<char>> {
    let name = path.skip(last_index_of(path, '/') + 1);
    let d = last_index_of(name, '.');
    if d <= 0 {
        None
    } else {
        Some(name.skip(d + 1))
    }
}

proof fn lemma_last_index_skip(s: Seq<char>, c: char, k: int)
    requires
        0 <= k <= s.len(),
    ensures
        last_index_of(s.skip(k), c) == if last_index_of(s, c) >= k {
            last_index_of(s, c) - k
        } else {
            -1int
        },
    decreases s.len(),
{
    lemma_last_index_of_props(s, c);
    if k == s.len() {
        assert(s.skip(k).len() == 0);
    } else if s.last() == c {
        assert(s.skip(k).last() == c);
        assert(s.skip(k).len() - 1 == s.len() - 1 - k);
    } else {
        assert(s.skip(k).last() == s.last());
        assert(s.skip(k).drop_last() =~= s.drop_last().skip(k));
        lemma_last_index_skip(s.drop_last(), c, k);
    }
}

/// The index just past the last `c` at or before which scanning stopped:
/// an exec search result matching `last_index_of`.
proof fn lemma_last_index_unique(s: Seq<char>, c: char, v: int)
    requires
        0 <= v < s.len(),
        s[v] == c,
        forall|j: int| v < j < s.len() ==> s[j] != c,
    ensures
        last_index_of(s, c) == v,
{
    lemma_last_index_of_props(s, c);
    let l = last_index_of(s, c);
    if l < v {
        assert(s[v] != c);
    } else if l > v {
        assert(s[l] != c);
    }
}

proof fn lemma_no_index(s: Seq<char>, c: char)
    requires
        forall|j: int| 0 <= j < s.len() ==> s[j] != c,
    ensures
        last_index_of(s, c) == -1,
{
    lemma_last_index_of_props(s, c);
    let l = last_index_of(s, c);
    if l >= 0 {
        assert(s[l] != c);
    }
}

/// The extension of `path`, as `extension_of` defines it.
pub fn extension(path: &str) -> (r: Option<String>)
    ensures
        match r {
            Some(e) => extension_of(path@) == Some(e@),
            None => extension_of(path@) is None,
        },
{
    let n = path.unicode_len();
    let mut last_slash: Option<usize> = None;
    let mut last_dot: Option<usize> = None;
    let mut i: usize = 0;
    while i < n
        invariant
            0 <= i <= n,
            n == path@.len(),
            match last_slash {
                Some(v) => v < i && path@[v as int] == '/' && forall|j: int|
                    v < j < i ==> path@[j] != '/',
                None => forall|j: int| 0 <= j < i ==> path@[j] != '/',
            },
            match last_dot {
                Some(v) => v < i && path@[v as int] == '.' && forall|j: int|
                    v < j < i ==> path@[j] != '.',
                None => forall|j: int| 0 <= j < i ==> path@[j] != '.',
            },
        decreases n - i,
    {
        let c = path.get_char(i);
        if c == '/' {
            last_slash = Some(i);
        }
        if c == '.' {
            last_dot = Some(i);
        }
        i = i + 1;
    }
    proof {
        match last_slash {
            Some(v) => lemma_last_index_unique(path@, '/', v as int),
            None => lemma_no_index(path@, '/'),
        }
        match last_dot {
            Some(v) => lemma_last_index_unique(path@, '.', v as int),
            None => lemma_no_index(path@, '.'),
        }
    }
    let ghost ls = last_index_of(path@, '/');
    let ghost name = path@.skip(ls + 1);
    let start: usize = match last_slash {
        Some(v) => v + 1,
        None => 0,
    };
    proof {
        assert(start == ls + 1);
        lemma_last_index_skip(path@, '.', start as int);
    }
    match last_dot {
        None => None,
        Some(ld) => {
            if ld > start {
                let e = path.substring_char(ld + 1, n).to_owned();
                proof {
                    assert(last_index_of(name, '.') == ld - start);
                    assert(name.skip(ld - start + 1) =~= path@.skip(ld + 1));
                    assert(e@ =~= path@.subrange(ld + 1, n as int));
                    assert(e@ =~= path@.skip(ld + 1));
                }
                Some(e)
            } else {
                proof {
                    if ld >= start {
                        assert(last_index_of(name, '.') == ld - start);
                        assert(ld - start <= 0);
                    } else {
                        assert(last_index_of(name, '.') == -1);
                    }
                }
                None
            }
        },
    }
}

} // verus!
