//! The embedded engine's configuration text: one `key value` setting per
//! line, `#` and `;` start comments, recognised keys are `tablesize` and
//! `logsize`, anything else is ignored.
use vstd::prelude::*;

verus! {

/// The sizes the embedded engine is built with.
#[derive(Clone, Copy, Debug, PartialEq, Eq, Structural)]
pub struct FasterConfig {
    /// Slots of the hash index.
    pub table_size: u64,
    /// Bytes of the log.
    pub log_size: u64,
}

/// A recognised setting whose value is not an unsigned 64-bit number.
#[derive(Clone, Copy, Debug, PartialEq, Eq, Structural)]
pub enum ConfigError {
    InvalidTableSize,
    InvalidLogSize,
}

/// Hash index slots used when the configuration does not say.
pub const DEFAULT_TABLE_SIZE: u64 = 16384;

/// Log bytes used when the configuration does not say.
pub const DEFAULT_LOG_SIZE: u64 = 17179869184;

/// The characters Unicode calls white space.
pub open spec fn is_white(c: char) -> bool {
    c == '\t' || c == '\n' || c == '\u{0B}' || c == '\u{0C}' || c == '\r' || c == ' '
        || c == '\u{85}' || c == '\u{A0}' || c == '\u{1680}' || ('\u{2000}' <= c && c <= '\u{200A}')
        || c == '\u{2028}' || c == '\u{2029}' || c == '\u{202F}' || c == '\u{205F}'
        || c == '\u{3000}'
}

/// What `str::to_lowercase` makes of a word.
pub uninterp spec fn lower_of(s: Seq<char>) -> Seq<char>;

/// The value of a string of decimal digits.
pub open spec fn decimal_value(digits: Seq<char>) -> int
    decreases digits.len(),
{
    if digits.len() == 0 {
        0
    } else {
        decimal_value(digits.drop_last()) * 10 + (digits.last() as int - '0' as int)
    }
}

/// What `u64::from_str` accepts: an optional `+`, then at least one decimal
/// digit, with a value that fits.
pub open spec fn parse_u64_spec(s: Seq<char>) -> Option<u64> {
    let body = if s.len() > 0 && s[0] == '+' {
        s.subrange(1, s.len() as int)
    } else {
        s
    };
    if body.len() > 0 && (forall|i: int| 0 <= i < body.len() ==> '0' <= #[trigger] body[i] <= '9')
        && decimal_value(body) <= u64::MAX {
        Some(decimal_value(body) as u64)
    } else {
        None
    }
}

/// Relies on `char::is_whitespace`: true exactly for Unicode white space.
#[verifier::external_body]
fn is_whitespace(c: char) -> (r: bool)
    ensures
        r == is_white(c),
{
    c.is_whitespace()
}

/// Relies on `str::chars`: the characters of the text, in order.
#[verifier::external_body]
fn chars_of(text: &str) -> (r: Vec<char>)
    ensures
        r@ == text@,
{
    text.chars().collect()
}

/// Relies on `str::to_lowercase`: the result depends on the characters alone.
#[verifier::external_body]
fn lowercase(word: &Vec<char>) -> (r: Vec<char>)
    ensures
        r@ == lower_of(word@),
{
    word.iter().collect::<String>().to_lowercase().chars().collect()
}

/// Relies on `u64::from_str`: an optional `+` and decimal digits whose value
/// fits, and nothing else.
#[verifier::external_body]
fn parse_u64(text: &Vec<char>) -> (r: Option<u64>)
    ensures
        r == parse_u64_spec(text@),
{
    text.iter().collect::<String>().parse::<u64>().ok()
}

/// The views of a list of character strings.
pub open spec fn views(s: Seq<Vec<char>>) -> Seq<Seq<char>> {
    s.map_values(|v: Vec<char>| v@)
}

/// The lines of `s` from position `i` on, the current one begun with `cur`:
/// the pieces between line feeds.
pub open spec fn lines_from(s: Seq<char>, i: int, cur: Seq<char>) -> Seq<Seq<char>>
    decreases s.len() - i,
{
    if i >= s.len() {
        seq![cur]
    } else if s[i] == '\n' {
        seq![cur] + lines_from(s, i + 1, Seq::empty())
    } else {
        lines_from(s, i + 1, cur.push(s[i]))
    }
}

/// The words of `s` from position `i` on, the current one begun with `cur`:
/// the non-empty runs of characters that are not white space.
pub open spec fn words_from(s: Seq<char>, i: int, cur: Seq<char>) -> Seq<Seq<char>>
    decreases s.len() - i,
{
    if i >= s.len() {
        if cur.len() > 0 {
            seq![cur]
        } else {
            Seq::empty()
        }
    } else if is_white(s[i]) {
        if cur.len() > 0 {
            seq![cur] + words_from(s, i + 1, Seq::empty())
        } else {
            words_from(s, i + 1, Seq::empty())
        }
    } else {
        words_from(s, i + 1, cur.push(s[i]))
    }
}

pub open spec fn starts_comment(w: Seq<char>) -> bool {
    w.len() > 0 && (w[0] == '#' || w[0] == ';')
}

/// The words that carry a setting's value: those after the key, leaving out
/// words that start with `=`, up to the first comment.
pub open spec fn value_words_from(ws: Seq<Seq<char>>, i: int) -> Seq<Seq<char>>
    decreases ws.len() - i,
{
    if i >= ws.len() {
        Seq::empty()
    } else if ws[i].len() > 0 && ws[i][0] == '=' {
        value_words_from(ws, i + 1)
    } else if starts_comment(ws[i]) {
        Seq::empty()
    } else {
        seq![ws[i]] + value_words_from(ws, i + 1)
    }
}

/// Each word followed by one space.
pub open spec fn joined_from(ws: Seq<Seq<char>>, i: int) -> Seq<char>
    decreases ws.len() - i,
{
    if i >= ws.len() {
        Seq::empty()
    } else {
        ws[i] + seq![' '] + joined_from(ws, i + 1)
    }
}

/// The characters before the first comma.
pub open spec fn before_comma_from(s: Seq<char>, i: int) -> Seq<char>
    decreases s.len() - i,
{
    if i >= s.len() || s[i] == ',' {
        Seq::empty()
    } else {
        seq![s[i]] + before_comma_from(s, i + 1)
    }
}

pub open spec fn trim_start(s: Seq<char>) -> Seq<char>
    decreases s.len(),
{
    if s.len() > 0 && is_white(s[0]) {
        trim_start(s.drop_first())
    } else {
        s
    }
}

pub open spec fn trim_end(s: Seq<char>) -> Seq<char>
    decreases s.len(),
{
    if s.len() > 0 && is_white(s.last()) {
        trim_end(s.drop_last())
    } else {
        s
    }
}

/// The value of a setting line split into words: the first comma-separated
/// parameter, without surrounding white space.
pub open spec fn setting_value(ws: Seq<Seq<char>>) -> Seq<char> {
    trim_end(trim_start(before_comma_from(joined_from(value_words_from(ws, 1), 0), 0)))
}

pub open spec fn table_size_key() -> Seq<char> {
    seq!['t', 'a', 'b', 'l', 'e', 's', 'i', 'z', 'e']
}

pub open spec fn log_size_key() -> Seq<char> {
    seq!['l', 'o', 'g', 's', 'i', 'z', 'e']
}

/// The configuration after a setting whose lower-cased key is `key`.
pub open spec fn setting_result(config: FasterConfig, key: Seq<char>, value: Seq<char>) -> Result<FasterConfig, ConfigError> {
    if key == table_size_key() {
        match parse_u64_spec(value) {
            Some(n) => Ok(FasterConfig { table_size: n, log_size: config.log_size }),
            None => Err(ConfigError::InvalidTableSize),
        }
    } else if key == log_size_key() {
        match parse_u64_spec(value) {
            Some(n) => Ok(FasterConfig { table_size: config.table_size, log_size: n }),
            None => Err(ConfigError::InvalidLogSize),
        }
    } else {
        Ok(config)
    }
}

/// The configuration after one more line.
pub open spec fn apply_line(config: Result<FasterConfig, ConfigError>, line: Seq<char>) -> Result<FasterConfig, ConfigError> {
    match config {
        Err(e) => Err(e),
        Ok(c) => {
            let ws = words_from(line, 0, Seq::empty());
            if ws.len() == 0 || starts_comment(ws[0]) {
                Ok(c)
            } else {
                setting_result(c, lower_of(ws[0]), setting_value(ws))
            }
        },
    }
}

pub open spec fn apply_lines(config: Result<FasterConfig, ConfigError>, lines: Seq<Seq<char>>) -> Result<FasterConfig, ConfigError>
    decreases lines.len(),
{
    if lines.len() == 0 {
        config
    } else {
        apply_line(apply_lines(config, lines.drop_last()), lines.last())
    }
}

/// The configuration a text describes, starting from the defaults.
pub open spec fn config_spec(text: Seq<char>) -> Result<FasterConfig, ConfigError> {
    apply_lines(
        Ok(FasterConfig { table_size: DEFAULT_TABLE_SIZE, log_size: DEFAULT_LOG_SIZE }),
        lines_from(text, 0, Seq::empty()),
    )
}

fn split_lines(text: &Vec<char>) -> (r: Vec<Vec<char>>)
    ensures
        views(r@) == lines_from(text@, 0, Seq::empty()),
{
    let mut done: Vec<Vec<char>> = Vec::new();
    let mut cur: Vec<char> = Vec::new();
    let mut i: usize = 0;
    while i < text.len()
        invariant
            i <= text@.len(),
            views(done@) + lines_from(text@, i as int, cur@) == lines_from(text@, 0, Seq::empty()),
        decreases text@.len() - i,
    {
        if text[i] == '\n' {
            let ghost before = views(done@);
            let ghost old_cur = cur@;
            done.push(cur);
            cur = Vec::new();
            proof {
                assert(views(done@) =~= before.push(old_cur));
                assert(views(done@) + lines_from(text@, i + 1, Seq::empty()) =~= before + lines_from(
                    text@,
                    i as int,
                    old_cur,
                ));
            }
        } else {
            cur.push(text[i]);
        }
        i = i + 1;
    }
    let ghost before = views(done@);
    let ghost last = cur@;
    done.push(cur);
    proof {
        assert(views(done@) =~= before + lines_from(text@, i as int, last));
    }
    done
}

fn split_words(line: &Vec<char>) -> (r: Vec<Vec<char>>)
    ensures
        views(r@) == words_from(line@, 0, Seq::empty()),
{
    let mut done: Vec<Vec<char>> = Vec::new();
    let mut cur: Vec<char> = Vec::new();
    let mut i: usize = 0;
    while i < line.len()
        invariant
            i <= line@.len(),
            views(done@) + words_from(line@, i as int, cur@) == words_from(line@, 0, Seq::empty()),
        decreases line@.len() - i,
    {
        if is_whitespace(line[i]) {
            if cur.len() > 0 {
                let ghost before = views(done@);
                let ghost old_cur = cur@;
                done.push(cur);
                cur = Vec::new();
                proof {
                    assert(views(done@) =~= before.push(old_cur));
                    assert(views(done@) + words_from(line@, i + 1, Seq::empty()) =~= before + words_from(
                        line@,
                        i as int,
                        old_cur,
                    ));
                }
            } else {
                proof {
                    assert(cur@ =~= Seq::<char>::empty());
                }
            }
        } else {
            cur.push(line[i]);
        }
        i = i + 1;
    }
    if cur.len() > 0 {
        let ghost before = views(done@);
        let ghost last = cur@;
        done.push(cur);
        proof {
            assert(views(done@) =~= before + words_from(line@, i as int, last));
        }
    } else {
        proof {
            assert(views(done@) =~= views(done@) + words_from(line@, i as int, cur@));
        }
    }
    done
}

fn copy_chars(s: &Vec<char>) -> (r: Vec<char>)
    ensures
        r@ == s@,
{
    let mut r: Vec<char> = Vec::new();
    let mut i: usize = 0;
    while i < s.len()
        invariant
            i <= s@.len(),
            r@ == s@.subrange(0, i as int),
        decreases s@.len() - i,
    {
        r.push(s[i]);
        i = i + 1;
    }
    r
}

fn chars_equal(a: &Vec<char>, b: &Vec<char>) -> (r: bool)
    ensures
        r == (a@ == b@),
{
    if a.len() != b.len() {
        return false;
    }
    let mut i: usize = 0;
    while i < a.len()
        invariant
            a@.len() == b@.len(),
            i <= a@.len(),
            a@.subrange(0, i as int) == b@.subrange(0, i as int),
        decreases a@.len() - i,
    {
        if a[i] != b[i] {
            assert(a@[i as int] != b@[i as int]);
            return false;
        }
        assert(a@.subrange(0, i + 1) == a@.subrange(0, i as int).push(a@[i as int]));
        assert(b@.subrange(0, i + 1) == b@.subrange(0, i as int).push(b@[i as int]));
        i = i + 1;
    }
    assert(a@ == a@.subrange(0, i as int));
    assert(b@ == b@.subrange(0, i as int));
    true
}

fn value_words(ws: &Vec<Vec<char>>) -> (r: Vec<Vec<char>>)
    ensures
        views(r@) == value_words_from(views(ws@), 1),
{
    let ghost w = views(ws@);
    let mut done: Vec<Vec<char>> = Vec::new();
    let mut i: usize = 1;
    while i < ws.len()
        invariant
            1 <= i,
            w == views(ws@),
            views(done@) + value_words_from(w, i as int) == value_words_from(w, 1),
        decreases ws@.len() - i,
    {
        let word = &ws[i];
        assert(word@ == w[i as int]);
        if word.len() > 0 && word[0] == '=' {
            i = i + 1;
        } else if word.len() > 0 && (word[0] == '#' || word[0] == ';') {
            proof {
                assert(value_words_from(w, ws@.len() as int) =~= Seq::<Seq<char>>::empty());
                assert(views(done@) + value_words_from(w, ws@.len() as int) =~= views(done@) + value_words_from(w, i as int));
            }
            i = ws.len();
        } else {
            let ghost before = views(done@);
            done.push(copy_chars(word));
            proof {
                assert(views(done@) =~= before.push(w[i as int]));
                assert(views(done@) + value_words_from(w, i + 1) =~= before + value_words_from(w, i as int));
            }
            i = i + 1;
        }
    }
    proof {
        assert(views(done@) + value_words_from(w, i as int) =~= views(done@));
    }
    done
}

fn join_words(ws: &Vec<Vec<char>>) -> (r: Vec<char>)
    ensures
        r@ == joined_from(views(ws@), 0),
{
    let ghost w = views(ws@);
    let mut r: Vec<char> = Vec::new();
    let mut i: usize = 0;
    while i < ws.len()
        invariant
            i <= ws@.len(),
            w == views(ws@),
            r@ + joined_from(w, i as int) == joined_from(w, 0),
        decreases ws@.len() - i,
    {
        let word = &ws[i];
        let ghost base = r@;
        let mut j: usize = 0;
        while j < word.len()
            invariant
                j <= word@.len(),
                r@ == base + word@.subrange(0, j as int),
            decreases word@.len() - j,
        {
            r.push(word[j]);
            proof {
                assert(r@ =~= base + word@.subrange(0, j + 1));
            }
            j = j + 1;
        }
        r.push(' ');
        proof {
            assert(word@ == w[i as int]);
            assert(r@ =~= base + w[i as int] + seq![' ']);
            assert(r@ + joined_from(w, i + 1) =~= base + joined_from(w, i as int));
        }
        i = i + 1;
    }
    proof {
        assert(r@ + joined_from(w, i as int) =~= r@);
    }
    r
}

fn before_comma(s: &Vec<char>) -> (r: Vec<char>)
    ensures
        r@ == before_comma_from(s@, 0),
{
    let mut r: Vec<char> = Vec::new();
    let mut i: usize = 0;
    while i < s.len()
        invariant
            i <= s@.len(),
            r@ + before_comma_from(s@, i as int) == before_comma_from(s@, 0),
        decreases s@.len() - i,
    {
        if s[i] == ',' {
            proof {
                assert(r@ + before_comma_from(s@, s@.len() as int) =~= r@ + before_comma_from(s@, i as int));
            }
            i = s.len();
        } else {
            let ghost base = r@;
            r.push(s[i]);
            proof {
                assert(r@ + before_comma_from(s@, i + 1) =~= base + before_comma_from(s@, i as int));
            }
            i = i + 1;
        }
    }
    proof {
        assert(r@ + before_comma_from(s@, i as int) =~= r@);
    }
    r
}

fn trim(s: &Vec<char>) -> (r: Vec<char>)
    ensures
        r@ == trim_end(trim_start(s@)),
{
    let n = s.len();
    let mut a: usize = 0;
    assert(s@.subrange(0, n as int) =~= s@);
    while a < n && is_whitespace(s[a])
        invariant
            n == s@.len(),
            a <= n,
            trim_start(s@) == trim_start(s@.subrange(a as int, n as int)),
        decreases n - a,
    {
        assert(s@.subrange(a as int, n as int).drop_first() =~= s@.subrange(a + 1, n as int));
        a = a + 1;
    }
    assert(trim_start(s@) == s@.subrange(a as int, n as int));
    let mut b: usize = n;
    while b > a && is_whitespace(s[b - 1])
        invariant
            n == s@.len(),
            a <= b <= n,
            trim_end(trim_start(s@)) == trim_end(s@.subrange(a as int, b as int)),
        decreases b - a,
    {
        assert(s@.subrange(a as int, b as int).drop_last() =~= s@.subrange(a as int, b - 1));
        b = b - 1;
    }
    let mut r: Vec<char> = Vec::new();
    let mut k: usize = a;
    while k < b
        invariant
            a <= k <= b <= n,
            n == s@.len(),
            r@ == s@.subrange(a as int, k as int),
        decreases b - k,
    {
        r.push(s[k]);
        proof {
            assert(r@ =~= s@.subrange(a as int, k + 1));
        }
        k = k + 1;
    }
    r
}

/// The configuration after one more line, on a configuration read so far.
fn apply_setting_line(config: FasterConfig, line: &Vec<char>) -> (r: Result<FasterConfig, ConfigError>)
    ensures
        r == apply_line(Ok(config), line@),
{
    let words = split_words(line);
    if words.len() == 0 {
        return Ok(config);
    }
    let key = &words[0];
    assert(key@ == views(words@)[0]);
    if key.len() > 0 && (key[0] == '#' || key[0] == ';') {
        return Ok(config);
    }
    let ghost ws = views(words@);
    let value = trim(&before_comma(&join_words(&value_words(&words))));
    assert(value@ == setting_value(ws));
    let lowered = lowercase(key);
    apply_setting(config, &lowered, &value)
}

/// The configuration after a setting whose key, already lower-cased, is
/// `key`: `tablesize` and `logsize` take `value` as a number, other keys
/// leave the configuration as it is.
pub fn apply_setting(config: FasterConfig, key: &Vec<char>, value: &Vec<char>) -> (r: Result<FasterConfig, ConfigError>)
    ensures
        r == setting_result(config, key@, value@),
{
    let table_key: Vec<char> = vec!['t', 'a', 'b', 'l', 'e', 's', 'i', 'z', 'e'];
    let log_key: Vec<char> = vec!['l', 'o', 'g', 's', 'i', 'z', 'e'];
    assert(table_key@ == table_size_key());
    assert(log_key@ == log_size_key());
    if chars_equal(key, &table_key) {
        match parse_u64(value) {
            Some(n) => Ok(FasterConfig { table_size: n, log_size: config.log_size }),
            None => Err(ConfigError::InvalidTableSize),
        }
    } else if chars_equal(key, &log_key) {
        match parse_u64(value) {
            Some(n) => Ok(FasterConfig { table_size: config.table_size, log_size: n }),
            None => Err(ConfigError::InvalidLogSize),
        }
    } else {
        Ok(config)
    }
}

/// Once a prefix of the lines is in error, so is the whole text.
proof fn lemma_config_error_persists(init: Result<FasterConfig, ConfigError>, lines: Seq<Seq<char>>, j: int)
    requires
        0 <= j <= lines.len(),
        apply_lines(init, lines.subrange(0, j)) is Err,
    ensures
        apply_lines(init, lines) == apply_lines(init, lines.subrange(0, j)),
    decreases lines.len() - j,
{
    if j < lines.len() {
        assert(lines.subrange(0, j + 1).drop_last() == lines.subrange(0, j));
        lemma_config_error_persists(init, lines, j + 1);
    } else {
        assert(lines.subrange(0, j) == lines);
    }
}

/// Reads the engine's sizes from configuration text. Settings not given keep
/// their defaults; a later line overrides an earlier one; the first
/// recognised setting whose value is not a number is an error.
pub fn parse_faster_config(text: &str) -> (r: Result<FasterConfig, ConfigError>)
    ensures
        r == config_spec(text@),
{
    let chars = chars_of(text);
    let lines = split_lines(&chars);
    let ghost ls = views(lines@);
    let ghost init = Ok::<FasterConfig, ConfigError>(
        FasterConfig { table_size: DEFAULT_TABLE_SIZE, log_size: DEFAULT_LOG_SIZE },
    );
    let mut config = FasterConfig { table_size: DEFAULT_TABLE_SIZE, log_size: DEFAULT_LOG_SIZE };
    let mut i: usize = 0;
    assert(ls.subrange(0, 0) =~= Seq::<Seq<char>>::empty());
    while i < lines.len()
        invariant
            i <= lines@.len(),
            ls == views(lines@),
            ls == lines_from(text@, 0, Seq::empty()),
            init == Ok::<FasterConfig, ConfigError>(
                FasterConfig { table_size: DEFAULT_TABLE_SIZE, log_size: DEFAULT_LOG_SIZE },
            ),
            apply_lines(init, ls.subrange(0, i as int)) == Ok::<FasterConfig, ConfigError>(config),
        decreases lines@.len() - i,
    {
        assert(ls.subrange(0, i + 1).drop_last() == ls.subrange(0, i as int));
        assert(lines@[i as int]@ == ls[i as int]);
        match apply_setting_line(config, &lines[i]) {
            Ok(c) => {
                config = c;
            },
            Err(e) => {
                proof {
                    lemma_config_error_persists(init, ls, i + 1);
                }
                return Err(e);
            },
        }
        i = i + 1;
    }
    assert(ls.subrange(0, i as int) == ls);
    Ok(config)
}

} // verus!
