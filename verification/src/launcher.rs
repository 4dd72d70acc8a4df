//! The decisions of the `rux` command line: prompts, argument checks,
//! defaults, and where per-app files go. Printing, reading stdin and the
//! file system are the caller's side.
use vstd::prelude::*;
use crate::error::LauncherError;
use crate::paths::{joined_path, path_join, stem_and_extension, stem_ext};
use crate::php::ResolvedPhp;
use crate::text::{
    decimal, decimal_string, lemma_trim_commutes,
    ends_with_at, has_prefix, has_suffix, starts_with_at, chars_eq, chars_of, is_whitespace, is_ws, lines_of, lower, lower_chars, push_char, push_chars,
    push_str, split_lines, string_of, trim, trim_bounds, sub_chars, views,
};

verus! {

/// The hint shown after a yes/no question.
pub fn yes_no_hint(default_yes: bool) -> (s: &'static str)
    ensures
        s@ == if default_yes {
            "[Y/n]"@
        } else {
            "[y/N]"@
        },
{
    if default_yes {
        "[Y/n]"
    } else {
        "[y/N]"
    }
}

/// The answer to a yes/no question: `y`/`yes` and `n`/`no` in any ASCII
/// case, ignoring surrounding whitespace; anything else, an empty answer
/// included, takes the default.
pub open spec fn yes_no(answer: Seq<char>, default_yes: bool) -> bool {
    let a = lower(trim(answer));
    if a == seq!['y'] || a == seq!['y', 'e', 's'] {
        true
    } else if a == seq!['n'] || a == seq!['n', 'o'] {
        false
    } else {
        default_yes
    }
}

/// Reads a yes/no answer (see `yes_no`).
pub fn yes_no_answer(answer: &str, default_yes: bool) -> (b: bool)
    ensures
        b == yes_no(answer@, default_yes),
{
    let v = chars_of(answer);
    assert(v@.subrange(0, v@.len() as int) == v@);
    let (a, b) = trim_bounds(v.as_slice(), 0, v.len());
    let t = sub_chars(v.as_slice(), a, b);
    let l = lower_chars(t.as_slice());
    let y = chars_of("y");
    let yes = chars_of("yes");
    let n = chars_of("n");
    let no = chars_of("no");
    proof {
        reveal_strlit("y");
        reveal_strlit("yes");
        reveal_strlit("n");
        reveal_strlit("no");
        assert(y@ =~= seq!['y']);
        assert(yes@ =~= seq!['y', 'e', 's']);
        assert(n@ =~= seq!['n']);
        assert(no@ =~= seq!['n', 'o']);
    }
    if chars_eq(l.as_slice(), y.as_slice()) || chars_eq(l.as_slice(), yes.as_slice()) {
        true
    } else if chars_eq(l.as_slice(), n.as_slice()) || chars_eq(l.as_slice(), no.as_slice()) {
        false
    } else {
        default_yes
    }
}

/// The last `n` lines of a log file's text (all of them if it has fewer).
pub fn tail_lines(content: &str, n: usize) -> (r: Vec<String>)
    ensures
        r@.map_values(|s: String| s@) == lines_of(content@).skip(
            if lines_of(content@).len() > n {
                lines_of(content@).len() - n
            } else {
                0
            },
        ),
{
    let text = chars_of(content);
    let (lines, _) = split_lines(text.as_slice());
    let start = if lines.len() > n {
        lines.len() - n
    } else {
        0
    };
    let mut out: Vec<String> = Vec::new();
    let mut i = start;
    while i < lines.len()
        invariant
            start <= i <= lines.len(),
            views(lines@) == lines_of(content@),
            out@.map_values(|s: String| s@) == views(lines@).subrange(start as int, i as int),
        decreases lines.len() - i,
    {
        let ghost before = out@.map_values(|s: String| s@);
        let s = string_of(lines[i].as_slice());
        let ghost sv = s@;
        out.push(s);
        assert(out@.map_values(|s: String| s@) =~= before.push(sv));
        assert(views(lines@).subrange(start as int, i + 1) =~= views(lines@).subrange(
            start as int,
            i as int,
        ).push(sv));
        i = i + 1;
    }
    assert(views(lines@).subrange(start as int, lines.len() as int) =~= views(lines@).skip(
        start as int,
    ));
    out
}

/// Index of the first `=` in `s`, if any.
pub open spec fn first_eq(s: Seq<char>) -> Option<int>
    decreases s.len(),
{
    if s.len() == 0 {
        None
    } else if s[0] == '=' {
        Some(0)
    } else {
        match first_eq(s.drop_first()) {
            Some(i) => Some(i + 1),
            None => None,
        }
    }
}

/// Why a `--php-ini` entry is refused, if it is.
pub open spec fn php_ini_problem(entry: Seq<char>) -> Option<Seq<char>> {
    match first_eq(entry) {
        None => Some("--php-ini '"@ + entry + "' isn't in key=value form"@),
        Some(i) => if trim(entry.take(i)).len() == 0 {
            Some("--php-ini '"@ + entry + "' has an empty key"@)
        } else {
            None
        },
    }
}

/// The first `=` in `v`.
fn find_eq(v: &[char]) -> (r: Option<usize>)
    ensures
        match r {
            Some(i) => first_eq(v@) == Some(i as int) && i < v.len(),
            None => first_eq(v@) is None,
        },
{
    let mut i: usize = 0;
    assert(v@.skip(0) =~= v@);
    while i < v.len()
        invariant
            i <= v.len(),
            first_eq(v@) == match first_eq(v@.skip(i as int)) {
                Some(k) => Some(k + i),
                None => None,
            },
        decreases v.len() - i,
    {
        if v[i] == '=' {
            return Some(i);
        }
        assert(v@.skip(i as int).drop_first() =~= v@.skip(i + 1));
        i = i + 1;
    }
    None
}

/// Checks every `--php-ini` entry is `key=value` with a non-empty key;
/// the first one that is not is reported.
pub fn check_php_ini_overrides(entries: &Vec<String>) -> (r: Result<(), LauncherError>)
    ensures
        match r {
            Ok(()) => forall|k: int| 0 <= k < entries.len() ==> php_ini_problem(#[trigger] entries@[k]@) is None,
            Err(e) => exists|k: int| 0 <= k < entries.len() && (forall|j: int| 0 <= j < k ==> php_ini_problem(#[trigger] entries@[j]@) is None)
                && (php_ini_problem(#[trigger] entries@[k]@) matches Some(m) && e matches LauncherError::Extraction(s) && s@ == m),
        },
{
    for k in 0..entries.len()
        invariant
            forall|j: int| 0 <= j < k ==> php_ini_problem(#[trigger] entries@[j]@) is None,
    {
        let v = chars_of(entries[k].as_str());
        match find_eq(v.as_slice()) {
            None => {
                let mut m = String::new();
                push_str(&mut m, "--php-ini '");
                push_str(&mut m, entries[k].as_str());
                push_str(&mut m, "' isn't in key=value form");
                return Err(LauncherError::Extraction(m));
            },
            Some(i) => {
                assert(v@.subrange(0, i as int) == v@.take(i as int));
                let (a, b) = trim_bounds(v.as_slice(), 0, i);
                if a == b {
                    let mut m = String::new();
                    push_str(&mut m, "--php-ini '");
                    push_str(&mut m, entries[k].as_str());
                    push_str(&mut m, "' has an empty key");
                    return Err(LauncherError::Extraction(m));
                }
            },
        }
    }
    Ok(())
}

/// The most characters a window title keeps.
pub const MAX_TITLE_CHARS: usize = 256;

/// The narrowest and widest window a built app opens with.
pub const MIN_WINDOW_WIDTH: u32 = 640;
pub const MAX_WINDOW_WIDTH: u32 = 7680;

/// The lowest and highest window a built app opens with.
pub const MIN_WINDOW_HEIGHT: u32 = 480;
pub const MAX_WINDOW_HEIGHT: u32 = 4320;

/// A control character (Unicode general category Cc: `U+0000`..`U+001F`
/// and `U+007F`..`U+009F`), newlines and tabs among them.
pub open spec fn is_control_char(c: char) -> bool {
    (c as u32) <= 0x1f || (0x7f <= (c as u32) && (c as u32) <= 0x9f)
}

/// `s` with every control character left out, the others in order.
pub open spec fn without_controls(s: Seq<char>) -> Seq<char>
    decreases s.len(),
{
    if s.len() == 0 {
        s
    } else {
        let rest = without_controls(s.drop_last());
        if is_control_char(s.last()) {
            rest
        } else {
            rest.push(s.last())
        }
    }
}

/// At most the first `MAX_TITLE_CHARS` characters of `s`.
pub open spec fn capped(s: Seq<char>) -> Seq<char> {
    if s.len() <= MAX_TITLE_CHARS {
        s
    } else {
        s.take(MAX_TITLE_CHARS as int)
    }
}

/// What a title becomes before it reaches the window: its control
/// characters dropped, then cut to `MAX_TITLE_CHARS` characters.
pub open spec fn sanitized_title(s: Seq<char>) -> Seq<char> {
    capped(without_controls(s))
}

proof fn lemma_without_controls_clean(s: Seq<char>)
    ensures
        forall|i: int|
            0 <= i < without_controls(s).len() ==> !is_control_char(#[trigger] without_controls(s)[i]),
    decreases s.len(),
{
    if s.len() > 0 {
        let rest = without_controls(s.drop_last());
        lemma_without_controls_clean(s.drop_last());
        if !is_control_char(s.last()) {
            assert forall|i: int| 0 <= i < rest.len() + 1 implies !is_control_char(
                #[trigger] rest.push(s.last())[i],
            ) by {
                if i < rest.len() {
                    assert(rest.push(s.last())[i] == rest[i]);
                }
            }
        }
    }
}

/// `c` is a control character (see `is_control_char`).
fn is_control(c: char) -> (b: bool)
    ensures
        b == is_control_char(c),
{
    let u = c as u32;
    u <= 0x1f || (0x7f <= u && u <= 0x9f)
}

/// `title` made safe to hand to the window system: no control character
/// (a newline included) is kept, and at most `MAX_TITLE_CHARS` characters.
pub fn sanitize_title(title: &str) -> (r: String)
    ensures
        r@ == sanitized_title(title@),
        r@.len() <= MAX_TITLE_CHARS,
        forall|i: int| 0 <= i < r@.len() ==> !is_control_char(#[trigger] r@[i]),
{
    let v = chars_of(title);
    let mut out: Vec<char> = Vec::new();
    for i in 0..v.len()
        invariant
            v@ == title@,
            out@ == capped(without_controls(v@.take(i as int))),
    {
        let ghost w = without_controls(v@.take(i as int));
        assert(v@.take(i + 1).drop_last() == v@.take(i as int));
        let c = v[i];
        if !is_control(c) && out.len() < MAX_TITLE_CHARS {
            out.push(c);
            assert(capped(w.push(c)) =~= out@);
        } else if !is_control(c) {
            assert(capped(w.push(c)) =~= capped(w));
        }
    }
    assert(v@.take(v@.len() as int) == v@);
    proof {
        lemma_without_controls_clean(title@);
    }
    string_of(out.as_slice())
}

/// `v` brought into `lo..=hi`.
pub open spec fn clamped(v: u32, lo: u32, hi: u32) -> u32 {
    if v < lo {
        lo
    } else if v > hi {
        hi
    } else {
        v
    }
}

/// The window size a built app opens with: `width` brought into
/// `MIN_WINDOW_WIDTH..=MAX_WINDOW_WIDTH`, `height` into
/// `MIN_WINDOW_HEIGHT..=MAX_WINDOW_HEIGHT`.
pub fn clamp_window_size(width: u32, height: u32) -> (r: (u32, u32))
    ensures
        r.0 == clamped(width, MIN_WINDOW_WIDTH, MAX_WINDOW_WIDTH),
        r.1 == clamped(height, MIN_WINDOW_HEIGHT, MAX_WINDOW_HEIGHT),
        MIN_WINDOW_WIDTH <= r.0 <= MAX_WINDOW_WIDTH,
        MIN_WINDOW_HEIGHT <= r.1 <= MAX_WINDOW_HEIGHT,
{
    let w = if width < MIN_WINDOW_WIDTH {
        MIN_WINDOW_WIDTH
    } else if width > MAX_WINDOW_WIDTH {
        MAX_WINDOW_WIDTH
    } else {
        width
    };
    let h = if height < MIN_WINDOW_HEIGHT {
        MIN_WINDOW_HEIGHT
    } else if height > MAX_WINDOW_HEIGHT {
        MAX_WINDOW_HEIGHT
    } else {
        height
    };
    (w, h)
}

/// The window title of a built app: the one given, else the app folder's
/// name, else `Ruxius App`; sanitized (see `sanitize_title`).
pub fn window_title(title: Option<String>, app_folder_name: Option<String>) -> (r: String)
    ensures
        r@ == sanitized_title(
            match title {
                Some(t) => t@,
                None => match app_folder_name {
                    Some(n) => n@,
                    None => "Ruxius App"@,
                },
            },
        ),
        r@.len() <= MAX_TITLE_CHARS,
        forall|i: int| 0 <= i < r@.len() ==> !is_control_char(#[trigger] r@[i]),
{
    let chosen = match title {
        Some(t) => t,
        None => match app_folder_name {
            Some(n) => n,
            None => "Ruxius App".to_owned(),
        },
    };
    sanitize_title(chosen.as_str())
}

/// The refusal to overwrite an unrelated file.
pub open spec fn overwrite_message(output: Seq<char>) -> Seq<char> {
    "'"@ + output
        + "' already exists and doesn't look like a Ruxius build — refusing to overwrite it. Pass --force if you're sure, or pick a different output path."@
}

/// A build may write its output unless something already stands there that
/// is not a previous build, and `--force` was not given.
pub fn check_output_overwrite(output: &str, exists: bool, force: bool, is_previous_build: bool) -> (r: Result<(), LauncherError>)
    ensures
        (exists && !force && !is_previous_build) ==> (r matches Err(LauncherError::Extraction(m)) && m@
            == overwrite_message(output@)),
        !(exists && !force && !is_previous_build) ==> r is Ok,
{
    if exists && !force && !is_previous_build {
        let mut m = String::new();
        push_str(&mut m, "'");
        push_str(&mut m, output);
        push_str(
            &mut m,
            "' already exists and doesn't look like a Ruxius build — refusing to overwrite it. Pass --force if you're sure, or pick a different output path.",
        );
        return Err(LauncherError::Extraction(m));
    }
    Ok(())
}

/// The whitespace-separated words of `s` after a partial word `cur`.
pub open spec fn words_after(s: Seq<char>, cur: Seq<char>) -> Seq<Seq<char>>
    decreases s.len(),
{
    if s.len() == 0 {
        if cur.len() == 0 {
            seq![]
        } else {
            seq![cur]
        }
    } else if is_ws(s[0]) {
        (if cur.len() == 0 {
            seq![]
        } else {
            seq![cur]
        }) + words_after(s.drop_first(), seq![])
    } else {
        words_after(s.drop_first(), cur.push(s[0]))
    }
}

/// The whitespace-separated words of `s`, as `split_whitespace` yields them.
pub open spec fn words(s: Seq<char>) -> Seq<Seq<char>> {
    words_after(s, seq![])
}

/// The words of `text`.
pub fn split_words(text: &[char]) -> (r: Vec<Vec<char>>)
    ensures
        views(r@) == words(text@),
{
    let mut out: Vec<Vec<char>> = Vec::new();
    let mut cur: Vec<char> = Vec::new();
    assert(text@.skip(0) == text@);
    assert(views(out@) =~= Seq::<Seq<char>>::empty());
    for i in 0..text.len()
        invariant
            words(text@) == views(out@) + words_after(text@.skip(i as int), cur@),
    {
        let ghost rest = text@.skip(i as int);
        assert(rest.drop_first() == text@.skip(i + 1));
        let c = text[i];
        if is_whitespace(c) {
            let ghost old_out = views(out@);
            let ghost old_cur = cur@;
            if cur.len() > 0 {
                out.push(cur);
                assert(views(out@) =~= old_out + seq![old_cur]);
            } else {
                assert(old_out + Seq::<Seq<char>>::empty() =~= old_out);
            }
            cur = Vec::new();
            assert(old_out + ((if old_cur.len() == 0 {
                Seq::<Seq<char>>::empty()
            } else {
                seq![old_cur]
            }) + words_after(rest.drop_first(), seq![])) =~= views(out@) + words_after(
                rest.drop_first(),
                cur@,
            ));
        } else {
            cur.push(c);
        }
    }
    let ghost before = views(out@);
    if cur.len() > 0 {
        let ghost last = cur@;
        out.push(cur);
        assert(views(out@) =~= before + seq![last]);
    } else {
        assert(before + Seq::<Seq<char>>::empty() =~= before);
    }
    out
}

/// `s` without its `.` characters.
pub open spec fn without_dots(s: Seq<char>) -> Seq<char>
    decreases s.len(),
{
    if s.len() == 0 {
        seq![]
    } else if s.last() == '.' {
        without_dots(s.drop_last())
    } else {
        without_dots(s.drop_last()).push(s.last())
    }
}

/// The name suggested for a PHP install from its `php -v` line: `php` and
/// the first three characters of the version word without dots (`PHP
/// 8.3.6 (cli)` gives `php83`); plain `php` without a version word.
pub open spec fn suggested_name(version_line: Option<Seq<char>>) -> Seq<char> {
    match version_line {
        Some(l) => if words(l).len() > 1 {
            "php"@ + without_dots(
                if words(l)[1].len() > 3 {
                    words(l)[1].take(3)
                } else {
                    words(l)[1]
                },
            )
        } else {
            "php"@
        },
        None => "php"@,
    }
}

/// The name to suggest for a PHP install (see `suggested_name`).
pub fn suggested_php_name(version_line: &Option<String>) -> (r: String)
    ensures
        r@ == suggested_name(match version_line {
            Some(l) => Some(l@),
            None => None,
        }),
{
    let mut out = String::new();
    push_str(&mut out, "php");
    if let Some(line) = version_line {
        let ws = split_words(chars_of(line.as_str()).as_slice());
        if ws.len() > 1 {
            let w = &ws[1];
            let k = if w.len() > 3 {
                3
            } else {
                w.len()
            };
            let ghost prefix = w@.take(k as int);
            let ghost start = out@;
            let mut i: usize = 0;
            while i < k
                invariant
                    k <= w.len(),
                    prefix == w@.take(k as int),
                    out@ == start + without_dots(prefix.take(i as int)),
                    i <= k,
                decreases k - i,
            {
                let c = w[i];
                proof {
                    assert(prefix.take(i + 1).drop_last() =~= prefix.take(i as int));
                    assert(prefix.take(i + 1).last() == c);
                }
                if c != '.' {
                    push_char(&mut out, c);
                }
                i = i + 1;
            }
            assert(prefix.take(k as int) =~= prefix);
            assert(w@.take(k as int) == if w@.len() > 3 { w@.take(3) } else { w@ }) by {
                if w@.len() <= 3 {
                    assert(w@.take(k as int) =~= w@);
                }
            }
        }
    }
    out
}

/// `s` without one leading `+`.
pub open spec fn unsigned_digits(s: Seq<char>) -> Seq<char> {
    if s.len() > 0 && s[0] == '+' {
        s.drop_first()
    } else {
        s
    }
}

/// All of `d` are ASCII digits.
pub open spec fn all_digits(d: Seq<char>) -> bool {
    forall|i: int| 0 <= i < d.len() ==> '0' <= #[trigger] d[i] && d[i] <= '9'
}

/// `s` is an optional `+` and then one or more ASCII digits.
pub open spec fn is_unsigned_literal(s: Seq<char>) -> bool {
    unsigned_digits(s).len() > 0 && all_digits(unsigned_digits(s))
}

/// The value of a run of ASCII digits.
pub open spec fn digits_value(d: Seq<char>) -> nat
    decreases d.len(),
{
    if d.len() == 0 {
        0
    } else {
        digits_value(d.drop_last()) * 10 + ((d.last() as u32) - ('0' as u32)) as nat
    }
}

/// What `str::parse::<usize>` gives: an optional `+` and digits whose
/// value fits in `usize`; `None` for anything else.
pub open spec fn parsed_usize(s: Seq<char>) -> Option<nat> {
    if is_unsigned_literal(s) && digits_value(unsigned_digits(s)) <= usize::MAX {
        Some(digits_value(unsigned_digits(s)))
    } else {
        None
    }
}

/// Parses a `usize` as `str::parse` does (see `parsed_usize`).
pub fn parse_usize(s: &[char]) -> (r: Option<usize>)
    ensures
        match r {
            Some(n) => parsed_usize(s@) == Some(n as nat),
            None => parsed_usize(s@) is None,
        },
{
    let start: usize = if s.len() > 0 && s[0] == '+' {
        1
    } else {
        0
    };
    let ghost d = s@.skip(start as int);
    assert(d == unsigned_digits(s@));
    if start >= s.len() {
        return None;
    }
    let mut value: usize = 0;
    let mut i = start;
    while i < s.len()
        invariant
            start <= i <= s.len(),
            d == s@.skip(start as int),
            d == unsigned_digits(s@),
            forall|k: int| 0 <= k < i - start ==> '0' <= #[trigger] d[k] && d[k] <= '9',
            value as nat == digits_value(d.take(i - start)),
        decreases s.len() - i,
    {
        let c = s[i];
        if c < '0' || c > '9' {
            assert(d[i - start] == c);
            assert(!all_digits(d));
            assert(parsed_usize(s@) is None);
            return None;
        }
        let digit = (c as u32 - 48) as usize;
        assert(d.take(i - start + 1).drop_last() =~= d.take(i - start));
        assert(d.take(i - start + 1).last() == c);
        if value > (usize::MAX - digit) / 10 {
            proof {
                assert(digits_value(d.take(i - start + 1)) == value * 10 + digit);
                assert(value * 10 + digit > usize::MAX) by (nonlinear_arith)
                    requires
                        value > (usize::MAX - digit) / 10,
                        digit <= 9,
                ;
                if all_digits(d) {
                    lemma_digits_value_prefix(d, i - start + 1);
                    assert(digits_value(d) > usize::MAX);
                }
                assert(parsed_usize(s@) is None);
            }
            return None;
        }
        value = value * 10 + digit;
        i = i + 1;
    }
    assert(d.take(d.len() as int) =~= d);
    Some(value)
}

/// A longer run of digits is worth at least as much as its prefix.
proof fn lemma_digits_value_prefix(d: Seq<char>, k: int)
    requires
        0 <= k <= d.len(),
        all_digits(d),
    ensures
        digits_value(d.take(k)) <= digits_value(d),
    decreases d.len() - k,
{
    if k < d.len() {
        lemma_digits_value_prefix(d, k + 1);
        assert(d.take(k + 1).drop_last() =~= d.take(k));
    } else {
        assert(d.take(k) =~= d);
    }
}

/// The install picked at the `rux init` prompt: a number from 1 to the
/// number of installs found picks that one; any other answer is taken as
/// a path.
pub fn init_choice(answer: &str, discovered: &Vec<String>) -> (r: String)
    ensures
        r@ == match parsed_usize(trim(answer@)) {
            Some(n) => if 1 <= n <= discovered.len() {
                discovered@[n - 1]@
            } else {
                answer@
            },
            None => answer@,
        },
{
    let v = chars_of(answer);
    assert(v@.subrange(0, v@.len() as int) == v@);
    let (a, b) = trim_bounds(v.as_slice(), 0, v.len());
    let t = sub_chars(v.as_slice(), a, b);
    match parse_usize(t.as_slice()) {
        Some(n) => if n >= 1 && n <= discovered.len() {
            discovered[n - 1].clone()
        } else {
            answer.to_owned()
        },
        None => answer.to_owned(),
    }
}

/// A per-app PHP log: `php-*.log`.
pub open spec fn is_php_log(name: Seq<char>) -> bool {
    has_prefix(name, "php-"@) && has_suffix(name, ".log"@)
}

/// Whether a file name is that of a per-app PHP log.
pub fn is_php_log_name(name: &str) -> (b: bool)
    ensures
        b == is_php_log(name@),
{
    let v = chars_of(name);
    assert(v@.subrange(0, v@.len() as int) == v@);
    let p = chars_of("php-");
    let l = chars_of(".log");
    starts_with_at(v.as_slice(), 0, v.len(), p.as_slice()) && ends_with_at(
        v.as_slice(),
        0,
        v.len(),
        l.as_slice(),
    )
}

/// Whether a folder name looks like a WebView2 version (`124.0.2478.97`):
/// it starts with an ASCII digit.
pub fn is_version_folder_name(name: &str) -> (b: bool)
    ensures
        b == (name@.len() > 0 && '0' <= name@[0] && name@[0] <= '9'),
{
    let v = chars_of(name);
    v.len() > 0 && '0' <= v[0] && v[0] <= '9'
}

/// `s` with later repeats of an element dropped, first occurrences kept in
/// order.
pub open spec fn first_occurrences(s: Seq<Seq<char>>) -> Seq<Seq<char>>
    decreases s.len(),
{
    if s.len() == 0 {
        seq![]
    } else {
        let prev = first_occurrences(s.drop_last());
        if prev.contains(s.last()) {
            prev
        } else {
            prev.push(s.last())
        }
    }
}

/// The PHP installs found, each once, in the order first found.
pub fn dedup_paths(candidates: &Vec<String>) -> (r: Vec<String>)
    ensures
        r@.map_values(|s: String| s@) == first_occurrences(candidates@.map_values(|s: String| s@)),
{
    let ghost c = candidates@.map_values(|s: String| s@);
    let mut found: Vec<String> = Vec::new();
    for i in 0..candidates.len()
        invariant
            c == candidates@.map_values(|s: String| s@),
            found@.map_values(|s: String| s@) == first_occurrences(c.take(i as int)),
    {
        let ghost f = found@.map_values(|s: String| s@);
        assert(c.take(i + 1).drop_last() =~= c.take(i as int));
        let mut seen = false;
        for k in 0..found.len()
            invariant
                i < candidates.len(),
                f == found@.map_values(|s: String| s@),
                seen == exists|m: int| 0 <= m < k && f[m] == candidates@[i as int]@,
        {
            if found[k] == candidates[i] {
                assert(f[k as int] == candidates@[i as int]@);
                seen = true;
            }
        }
        assert(seen == f.contains(c[i as int])) by {
            if f.contains(c[i as int]) {
                let m = choose|m: int| 0 <= m < f.len() && f[m] == c[i as int];
                assert(f[m] == candidates@[i as int]@);
            }
        }
        if !seen {
            let ghost nv = candidates@[i as int]@;
            found.push(candidates[i].clone());
            assert(found@.map_values(|s: String| s@) =~= f.push(nv));
        }
    }
    assert(c.take(candidates.len() as int) =~= c);
    found
}

/// Where per-app PHP logs go.
pub fn logs_dir(data_dir: &str) -> (r: String)
    ensures
        r@ == joined_path(data_dir@, "logs"@),
{
    path_join(data_dir, "logs")
}

/// The PHP log of the built app with payload checksum `checksum_hex`.
pub fn php_log_path(data_dir: &str, checksum_hex: &str) -> (r: String)
    ensures
        r@ == joined_path(joined_path(data_dir@, "logs"@), "php-"@ + checksum_hex@ + ".log"@),
{
    let dir = logs_dir(data_dir);
    let mut name = String::new();
    push_str(&mut name, "php-");
    push_str(&mut name, checksum_hex);
    push_str(&mut name, ".log");
    path_join(dir.as_str(), name.as_str())
}

/// Where build archives are cached.
pub fn cache_dir(data_dir: &str) -> (r: String)
    ensures
        r@ == joined_path(joined_path(data_dir@, "cache"@), "archives"@),
{
    let c = path_join(data_dir, "cache");
    path_join(c.as_str(), "archives")
}

/// The php.ini, extension directory and binary of a resolved install, the
/// trio every `rux php ext` subcommand needs; an install without php.ini
/// is an error.
pub fn require_php_ini(resolved: ResolvedPhp) -> (r: Result<(String, Option<String>, String), LauncherError>)
    ensures
        match resolved.php_ini {
            Some(ini) => r matches Ok((i, e, b)) && i@ == ini@ && e == resolved.extension_dir && b@
                == resolved.binary@,
            None => r matches Err(LauncherError::Extraction(m)) && m@ == "no php.ini found next to "@
                + resolved.binary@,
        },
{
    match resolved.php_ini {
        Some(ini) => Ok((ini, resolved.extension_dir, resolved.binary)),
        None => {
            let mut m = String::new();
            push_str(&mut m, "no php.ini found next to ");
            push_str(&mut m, resolved.binary.as_str());
            Err(LauncherError::Extraction(m))
        },
    }
}


/// The version line of `php -v`'s output: its first line, trimmed.
pub open spec fn version_line_of(stdout: Seq<char>) -> Option<Seq<char>> {
    if lines_of(stdout).len() > 0 {
        Some(trim(lines_of(stdout)[0]))
    } else {
        None
    }
}

/// The first line of `php -v`'s output, trimmed (e.g. `PHP 8.3.6 (cli)
/// ...`); `None` when it printed nothing.
pub fn version_line(stdout: &str) -> (r: Option<String>)
    ensures
        match version_line_of(stdout@) {
            Some(l) => r matches Some(s) && s@ == l,
            None => r is None,
        },
{
    let text = chars_of(stdout);
    let (lines, _) = split_lines(text.as_slice());
    if lines.len() == 0 {
        return None;
    }
    let first = &lines[0];
    assert(first@.subrange(0, first@.len() as int) == first@);
    let (a, b) = trim_bounds(first.as_slice(), 0, first.len());
    let t = sub_chars(first.as_slice(), a, b);
    assert(views(lines@)[0] == first@);
    Some(string_of(t.as_slice()))
}

/// How a status line is shown.
#[derive(Debug, Clone, Copy, PartialEq, Eq, Structural)]
pub enum Level {
    Success,
    Info,
    Warn,
    Error,
}

/// `rux doctor`'s line about the registered PHP installs, given whether
/// none is registered and how many resolve (`ok`) or not (`missing`).
pub fn doctor_php_line(none_registered: bool, ok: u64, missing: u64) -> (r: (Level, String))
    ensures
        none_registered ==> r.0 == Level::Info && r.1@
            == "No PHP versions registered yet (rux php add <name> <path>)."@,
        !none_registered && missing == 0 ==> r.0 == Level::Success && r.1@ == decimal(ok as nat)
            + " registered PHP version(s), all valid."@,
        !none_registered && missing > 0 ==> r.0 == Level::Warn && r.1@ == decimal(ok as nat)
            + " registered PHP version(s) valid, "@ + decimal(missing as nat)
            + " missing — check `rux php list`."@,
{
    if none_registered {
        return (Level::Info, "No PHP versions registered yet (rux php add <name> <path>).".to_owned());
    }
    let mut s = String::new();
    let o = decimal_string(ok);
    push_str(&mut s, o.as_str());
    if missing == 0 {
        push_str(&mut s, " registered PHP version(s), all valid.");
        (Level::Success, s)
    } else {
        push_str(&mut s, " registered PHP version(s) valid, ");
        let m = decimal_string(missing);
        push_str(&mut s, m.as_str());
        push_str(&mut s, " missing — check `rux php list`.");
        (Level::Warn, s)
    }
}

/// `rux doctor`'s line about cached build archives: how many are in
/// `dir`, or that there is no cache yet (`None`).
pub fn doctor_cache_line(count: Option<u64>, dir: &str) -> (r: String)
    ensures
        r@ == match count {
            Some(n) => decimal(n as nat) + " cached build archive(s) in "@ + dir@,
            None => "No cached build archives yet."@,
        },
{
    match count {
        Some(n) => {
            let mut s = decimal_string(n);
            push_str(&mut s, " cached build archive(s) in ");
            push_str(&mut s, dir);
            s
        },
        None => "No cached build archives yet.".to_owned(),
    }
}

/// How long the launcher's own log files are kept: 14 days, in
/// nanoseconds.
pub open spec fn log_retention() -> int {
    14int * 86400 * 1_000_000_000
}

/// Whether a file in the log directory is pruned: a `.log` file (by its
/// extension, exactly `log`) last modified before the retention period
/// that ends at `now` (times in nanoseconds since the Unix epoch). A file
/// whose time cannot be read is kept.
pub fn should_prune(file_name: &str, modified: Option<i128>, now: i128) -> (b: bool)
    requires
        now >= i128::MIN + 14 * 86400 * 1_000_000_000,
    ensures
        b == (stem_ext(file_name@).1 == Some("log"@) && (modified matches Some(m) && m < now
            - log_retention())),
{
    proof {
        reveal_strlit("log");
    }
    let name = chars_of(file_name);
    let (_, ext) = stem_and_extension(name.as_slice());
    let is_log = match ext {
        Some(e) => {
            let l = chars_of("log");
            chars_eq(e.as_slice(), l.as_slice())
        },
        None => false,
    };
    if !is_log {
        return false;
    }
    match modified {
        Some(m) => m < now - 14 * 86400 * 1_000_000_000,
        None => false,
    }
}

/// Among the files of the log directory (`names`, with their modification
/// times `times`), the one `rux logs` follows: the `php-*.log` file
/// modified last, a file whose time cannot be read counting as older than
/// any other, and of equally recent ones the last listed.
pub open spec fn is_latest_log(names: Seq<Seq<char>>, times: Seq<Option<i128>>, i: int) -> bool {
    &&& 0 <= i < names.len()
    &&& is_php_log(names[i])
    &&& forall|j: int| 0 <= j < names.len() && is_php_log(#[trigger] names[j]) ==> !time_before(times[i], times[j])
    &&& forall|j: int| i < j < names.len() && is_php_log(#[trigger] names[j]) ==> time_before(times[j], times[i])
}

/// `a` is strictly earlier than `b`, an unknown time being the earliest.
pub open spec fn time_before(a: Option<i128>, b: Option<i128>) -> bool {
    match (a, b) {
        (None, Some(_)) => true,
        (Some(x), Some(y)) => x < y,
        _ => false,
    }
}

/// Picks the log `rux logs` follows (see `is_latest_log`); `None` when no
/// `php-*.log` file is listed.
pub fn latest_log(names: &Vec<String>, times: &Vec<Option<i128>>) -> (r: Option<usize>)
    requires
        names.len() == times.len(),
    ensures
        match r {
            Some(i) => is_latest_log(names@.map_values(|s: String| s@), times@, i as int),
            None => forall|j: int| 0 <= j < names.len() ==> !is_php_log(#[trigger] names@[j]@),
        },
{
    let ghost ns = names@.map_values(|s: String| s@);
    let mut best: Option<usize> = None;
    for k in 0..names.len()
        invariant
            names.len() == times.len(),
            ns == names@.map_values(|s: String| s@),
            match best {
                Some(i) => {
                    &&& i < k
                    &&& is_php_log(ns[i as int])
                    &&& forall|j: int| 0 <= j < k && is_php_log(#[trigger] ns[j]) ==> !time_before(times@[i as int], times@[j])
                    &&& forall|j: int| i < j < k && is_php_log(#[trigger] ns[j]) ==> time_before(times@[j], times@[i as int])
                },
                None => forall|j: int| 0 <= j < k ==> !is_php_log(#[trigger] ns[j]),
            },
    {
        if is_php_log_name(names[k].as_str()) {
            assert(ns[k as int] == names@[k as int]@);
            match best {
                None => {
                    best = Some(k);
                },
                Some(i) => {
                    let later_or_same = match (&times[i], &times[k]) {
                        (None, _) => true,
                        (Some(_), None) => false,
                        (Some(x), Some(y)) => *x <= *y,
                    };
                    if later_or_same {
                        best = Some(k);
                    }
                },
            }
        }
    }
    proof {
        if best is None {
            assert forall|j: int| 0 <= j < names.len() implies !is_php_log(#[trigger] names@[j]@) by {
                assert(ns[j] == names@[j]@);
            }
        }
    }
    best
}

/// A directory entry worth checking for a PHP binary: its name begins with
/// `php` in any ASCII case.
pub open spec fn is_php_candidate(name: Seq<char>) -> bool {
    name.len() >= 3 && lower(name.take(3)) == seq!['p', 'h', 'p']
}

/// Whether a directory entry is worth checking for a PHP binary (see
/// `is_php_candidate`; lower-casing the whole name first gives the same
/// answer, since only ASCII letters lower-case to `p` or `h`).
pub fn is_php_candidate_name(name: &str) -> (b: bool)
    ensures
        b == is_php_candidate(name@),
{
    let v = chars_of(name);
    if v.len() < 3 {
        return false;
    }
    let head = sub_chars(v.as_slice(), 0, 3);
    let l = lower_chars(head.as_slice());
    assert(head@ == name@.take(3));
    let php = chars_of("php");
    proof {
        reveal_strlit("php");
        assert(php@ =~= seq!['p', 'h', 'p']);
    }
    chars_eq(l.as_slice(), php.as_slice())
}

/// The PHP binary in a candidate directory: `php.exe`, else `php`, when it
/// is a file.
pub fn candidate_binary(dir: &str, exe_is_file: bool, php_is_file: bool) -> (r: Option<String>)
    ensures
        r matches Some(b) ==> (exe_is_file && b@ == joined_path(dir@, "php.exe"@)) || (!exe_is_file
            && php_is_file && b@ == joined_path(dir@, "php"@)),
        r is None <==> !exe_is_file && !php_is_file,
{
    if exe_is_file {
        Some(path_join(dir, "php.exe"))
    } else if php_is_file {
        Some(path_join(dir, "php"))
    } else {
        None
    }
}


/// What following a log does after looking at its size again.
#[derive(Debug, Clone, Copy, PartialEq, Eq, Structural)]
pub struct FollowStep {
    /// Read from the start of the file again (it was truncated or replaced).
    pub rewind: bool,
    /// Read and print what was appended.
    pub read: bool,
    /// The size counted as shown after this step.
    pub shown: u64,
}

/// One poll of `rux logs`: the file had `shown` bytes shown and now has
/// `size`. A file that shrank was rotated or cleared, so reading starts
/// over from its beginning; whatever lies beyond what was shown is read
/// and printed.
pub fn follow_step(shown: u64, size: u64) -> (r: FollowStep)
    ensures
        r.rewind == (size < shown),
        r.read == (size > (if size < shown { 0 } else { shown })),
        r.shown == if r.read { size } else if size < shown { 0 } else { shown },
{
    let mut pos = shown;
    let rewind = size < shown;
    if rewind {
        pos = 0;
    }
    let read = size > pos;
    if read {
        pos = size;
    }
    FollowStep { rewind, read, shown: pos }
}

/// What `--watch` does after looking at the app folder again.
#[derive(Debug, Clone, Copy, PartialEq, Eq, Structural)]
pub enum WatchAction {
    /// Nothing changed: wait and look again.
    Wait,
    /// The folder changed: rebuild (overwriting the previous build), and
    /// whether or not that build succeeds, go on watching.
    Rebuild,
}

/// One look at the app folder while watching: `last` is the fingerprint
/// the current build was made from, `current` the folder's fingerprint now.
/// A change asks for a rebuild, and `current` becomes the fingerprint the
/// next look compares against, however that rebuild turns out.
pub fn watch_step(last: &mut String, current: String) -> (a: WatchAction)
    ensures
        a == (if current@ == old(last)@ {
            WatchAction::Wait
        } else {
            WatchAction::Rebuild
        }),
        final(last)@ == current@,
{
    let l = chars_of(last.as_str());
    let c = chars_of(current.as_str());
    if chars_eq(l.as_slice(), c.as_slice()) {
        WatchAction::Wait
    } else {
        *last = current;
        WatchAction::Rebuild
    }
}

} // verus!
