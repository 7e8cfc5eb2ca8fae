use vstd::prelude::*;
use crate::strings::{push_decimal, push_str};

verus! {

/// The kind of an engine option with its default and current value (and, for a number, its
/// bounds).
#[allow(inconsistent_fields)]
#[derive(Clone, Debug)]
pub enum UsiOptionValue {
    String { default: String, current: String },
    Filename { default: String, current: String },
    Spin { default: i64, current: i64, min: i64, max: i64 },
    Check { default: bool, current: bool },
    Button,
}

/// An engine option: its name and its value.
#[derive(Clone, Debug)]
pub struct UsiOption {
    pub name: String,
    pub value: UsiOptionValue,
}

/// The engine's options, kept in the byte order of their names.
#[derive(Clone)]
pub struct UsiOptions {
    v: Vec<UsiOption>,
}

/// `i` is the first index of an option named `key`.
pub open spec fn first_named(os: Seq<UsiOption>, key: Seq<char>, i: int) -> bool {
    &&& 0 <= i < os.len()
    &&& os[i].name@ == key
    &&& forall|j: int| 0 <= j < i ==> #[trigger] os[j].name@ != key
}

/// The line that announces an option to the GUI.
pub open spec fn option_line(o: UsiOption) -> Seq<char> {
    let head = "option name "@ + o.name@;
    match o.value {
        UsiOptionValue::String { default, .. } => head + " type string default "@ + default@,
        UsiOptionValue::Filename { default, .. } => head + " type filename default "@ + default@,
        UsiOptionValue::Spin { default, min, max, .. } => head + " type spin default "@
            + crate::strings::int_decimal(default as int) + " min "@ + crate::strings::int_decimal(min as int)
            + " max "@ + crate::strings::int_decimal(max as int),
        UsiOptionValue::Check { default, .. } => head + " type check default "@
            + (if default { "true"@ } else { "false"@ }),
        UsiOptionValue::Button => head + " type button"@,
    }
}

/// The lines of the options, one after the other, separated by newlines (none after the
/// last).
pub open spec fn options_text(os: Seq<UsiOption>) -> Seq<char>
    decreases os.len(),
{
    if os.len() == 0 {
        Seq::empty()
    } else if os.len() == 1 {
        option_line(os[0])
    } else {
        options_text(os.drop_last()) + "\n"@ + option_line(os.last())
    }
}

fn push_option_line(s: &mut String, o: &UsiOption)
    ensures final(s)@ == old(s)@ + option_line(*o),
{
    push_str(s, "option name ");
    push_str(s, o.name.as_str());
    match &o.value {
        UsiOptionValue::String { default, .. } => {
            push_str(s, " type string default ");
            push_str(s, default.as_str());
        },
        UsiOptionValue::Filename { default, .. } => {
            push_str(s, " type filename default ");
            push_str(s, default.as_str());
        },
        UsiOptionValue::Spin { default, min, max, .. } => {
            push_str(s, " type spin default ");
            push_decimal(s, *default);
            push_str(s, " min ");
            push_decimal(s, *min);
            push_str(s, " max ");
            push_decimal(s, *max);
        },
        UsiOptionValue::Check { default, .. } => {
            push_str(s, " type check default ");
            if *default {
                push_str(s, "true");
            } else {
                push_str(s, "false");
            }
        },
        UsiOptionValue::Button => {
            push_str(s, " type button");
        },
    }
    assert(s@ =~= old(s)@ + option_line(*o));
}

fn string_option(name: &str, default: &str) -> (r: UsiOption)
    ensures
        r.name@ == name@,
        r.value matches UsiOptionValue::String { default: d, current: c } && d@ == default@ && c@ == default@,
{
    UsiOption {
        name: name.to_owned(),
        value: UsiOptionValue::String { default: default.to_owned(), current: default.to_owned() },
    }
}

fn filename_option(name: &str, default: &str) -> (r: UsiOption)
    ensures
        r.name@ == name@,
        r.value matches UsiOptionValue::Filename { default: d, current: c } && d@ == default@ && c@ == default@,
{
    UsiOption {
        name: name.to_owned(),
        value: UsiOptionValue::Filename { default: default.to_owned(), current: default.to_owned() },
    }
}

fn spin_option(name: &str, default: i64, min: i64, max: i64) -> (r: UsiOption)
    ensures
        r.name@ == name@,
        r.value == (UsiOptionValue::Spin { default, current: default, min, max }),
{
    UsiOption { name: name.to_owned(), value: UsiOptionValue::Spin { default, current: default, min, max } }
}

fn check_option(name: &str, default: bool) -> (r: UsiOption)
    ensures
        r.name@ == name@,
        r.value == (UsiOptionValue::Check { default, current: default }),
{
    UsiOption { name: name.to_owned(), value: UsiOptionValue::Check { default, current: default } }
}

fn button_option(name: &str) -> (r: UsiOption)
    ensures
        r.name@ == name@,
        r.value == UsiOptionValue::Button,
{
    UsiOption { name: name.to_owned(), value: UsiOptionValue::Button }
}

impl UsiOptions {
    pub const BOOK_ENABLE: &'static str = "Book_Enable";
    pub const BOOK_FILE: &'static str = "Book_File";
    pub const BYOYOMI_MARGIN: &'static str = "Byoyomi_Margin";
    pub const CLEAR_HASH: &'static str = "Clear_Hash";
    pub const EVAL_DIR: &'static str = "Eval_Dir";
    pub const EVAL_HASH: &'static str = "Eval_Hash";
    pub const MINIMUM_THINKING_TIME: &'static str = "Minimum_Thinking_Time";
    pub const MULTI_PV: &'static str = "MultiPV";
    pub const SLOW_MOVER: &'static str = "Slow_Mover";
    pub const THREADS: &'static str = "Threads";
    pub const TIME_MARGIN: &'static str = "Time_Margin";
    pub const USI_HASH: &'static str = "USI_Hash";
    pub const USI_PONDER: &'static str = "USI_Ponder";

    /// Whether no two options share a name.
    pub open spec fn names_distinct(opts: Seq<UsiOption>) -> bool {
        forall|i: int, j: int| 0 <= i < j < opts.len() ==> #[trigger] opts[i].name@ != #[trigger] opts[j].name@
    }

    /// The options in their table order.
    pub closed spec fn options(self) -> Seq<UsiOption> {
        self.v@
    }

    /// The options of the engine with their defaults, in the byte order of their names:
    /// `Book_Enable` (check, false), `Book_File` (filename), `Byoyomi_Margin` (spin 500, 0 to
    /// `i64::MAX`), `Clear_Hash` (button), `Eval_Dir` (string), `Eval_Hash` (spin 256, 1 to 1048576),
    /// `Minimum_Thinking_Time` (spin
    /// 20, 0 to 5000), `MultiPV` (spin 1, 1 to 500), `Slow_Mover` (spin 100, 10 to 1000),
    /// `Threads` (spin 1, 1 to 8192), `Time_Margin` (spin 500, 0 to `i64::MAX`), `USI_Hash`
    /// (spin 256, 1 to 1048576) and `USI_Ponder` (check, true).
    pub fn new() -> (r: UsiOptions)
        ensures
            r.options().len() == 13,
            Self::names_distinct(r.options()),
            r.options()[0].name@ == Self::BOOK_ENABLE@,
            r.options()[0].value == (UsiOptionValue::Check { default: false, current: false }),
            r.options()[1].name@ == Self::BOOK_FILE@,
            r.options()[1].value matches UsiOptionValue::Filename { default: d, current: c }
                && d@ == "book/20191216/book.json"@ && c@ == d@,
            r.options()[2].name@ == Self::BYOYOMI_MARGIN@,
            r.options()[2].value == (UsiOptionValue::Spin { default: 500, current: 500, min: 0, max: i64::MAX }),
            r.options()[3].name@ == Self::CLEAR_HASH@,
            r.options()[3].value == UsiOptionValue::Button,
            r.options()[4].name@ == Self::EVAL_DIR@,
            r.options()[4].value matches UsiOptionValue::String { default: d, current: c }
                && d@ == "eval/20190617"@ && c@ == d@,
            r.options()[5].name@ == Self::EVAL_HASH@,
            r.options()[5].value == (UsiOptionValue::Spin { default: 256, current: 256, min: 1, max: 1048576 }),
            r.options()[6].name@ == Self::MINIMUM_THINKING_TIME@,
            r.options()[6].value == (UsiOptionValue::Spin { default: 20, current: 20, min: 0, max: 5000 }),
            r.options()[7].name@ == Self::MULTI_PV@,
            r.options()[7].value == (UsiOptionValue::Spin { default: 1, current: 1, min: 1, max: 500 }),
            r.options()[8].name@ == Self::SLOW_MOVER@,
            r.options()[8].value == (UsiOptionValue::Spin { default: 100, current: 100, min: 10, max: 1000 }),
            r.options()[9].name@ == Self::THREADS@,
            r.options()[9].value == (UsiOptionValue::Spin { default: 1, current: 1, min: 1, max: 8192 }),
            r.options()[10].name@ == Self::TIME_MARGIN@,
            r.options()[10].value == (UsiOptionValue::Spin { default: 500, current: 500, min: 0, max: i64::MAX }),
            r.options()[11].name@ == Self::USI_HASH@,
            r.options()[11].value == (UsiOptionValue::Spin { default: 256, current: 256, min: 1, max: 1048576 }),
            r.options()[12].name@ == Self::USI_PONDER@,
            r.options()[12].value == (UsiOptionValue::Check { default: true, current: true }),
    {
        let mut v: Vec<UsiOption> = Vec::new();
        v.push(check_option(Self::BOOK_ENABLE, false));
        v.push(filename_option(Self::BOOK_FILE, "book/20191216/book.json"));
        v.push(spin_option(Self::BYOYOMI_MARGIN, 500, 0, i64::MAX));
        v.push(button_option(Self::CLEAR_HASH));
        v.push(string_option(Self::EVAL_DIR, "eval/20190617"));
        v.push(spin_option(Self::EVAL_HASH, 256, 1, 1024 * 1024));
        v.push(spin_option(Self::MINIMUM_THINKING_TIME, 20, 0, 5000));
        v.push(spin_option(Self::MULTI_PV, 1, 1, 500));
        v.push(spin_option(Self::SLOW_MOVER, 100, 10, 1000));
        v.push(spin_option(Self::THREADS, 1, 1, 8192));
        v.push(spin_option(Self::TIME_MARGIN, 500, 0, i64::MAX));
        v.push(spin_option(Self::USI_HASH, 256, 1, 1024 * 1024));
        v.push(check_option(Self::USI_PONDER, true));
        let r = UsiOptions { v };
        proof {
            reveal_strlit("Book_Enable");
            reveal_strlit("Book_File");
            reveal_strlit("Byoyomi_Margin");
            reveal_strlit("Clear_Hash");
            reveal_strlit("Eval_Dir");
            reveal_strlit("Eval_Hash");
            reveal_strlit("Minimum_Thinking_Time");
            reveal_strlit("MultiPV");
            reveal_strlit("Slow_Mover");
            reveal_strlit("Threads");
            reveal_strlit("Time_Margin");
            reveal_strlit("USI_Hash");
            reveal_strlit("USI_Ponder");
            let o = r.options();
            assert forall|i: int, j: int| 0 <= i < j < o.len() implies #[trigger] o[i].name@ != #[trigger] o[j].name@ by {
                let a = o[i].name@;
                let b = o[j].name@;
                if a.len() == b.len() {
                    if a[0] == b[0] {
                        if a[1] == b[1] {
                            assert(a[4] != b[4] || a[5] != b[5]);
                        }
                    }
                }
            }
        }
        r
    }

    /// The lines announcing the options, in table order, separated by newlines, the last
    /// one without.
    pub fn to_usi_string(&self) -> (r: String)
        ensures r@ == options_text(self.options()),
    {
        let mut s = String::new();
        let n = self.v.len();
        let mut i: usize = 0;
        while i < n
            invariant
                i <= n,
                n == self.v@.len(),
                s@ == options_text(self.v@.take(i as int)),
            decreases n - i,
        {
            let ghost before = s@;
            if i > 0 {
                push_str(&mut s, "\n");
            }
            push_option_line(&mut s, &self.v[i]);
            proof {
                let t = self.v@.take(i + 1);
                assert(t.drop_last() =~= self.v@.take(i as int));
                assert(t.last() == self.v@[i as int]);
                if i == 0 {
                    assert(before =~= Seq::<char>::empty());
                    assert(s@ =~= options_text(t));
                }
            }
            i += 1;
        }
        assert(self.v@.take(n as int) =~= self.v@);
        s
    }

    fn find(&self, key: &str) -> (r: Option<usize>)
        ensures
            match r {
                Some(i) => first_named(self.options(), key@, i as int),
                None => forall|j: int| 0 <= j < self.options().len() ==> #[trigger] self.options()[j].name@ != key@,
            },
    {
        let k = key.to_owned();
        let n = self.v.len();
        let mut i: usize = 0;
        while i < n
            invariant
                i <= n,
                n == self.v@.len(),
                k@ == key@,
                forall|j: int| 0 <= j < i ==> #[trigger] self.v@[j].name@ != key@,
            decreases n - i,
        {
            if self.v[i].name == k {
                return Some(i);
            }
            i += 1;
        }
        None
    }

    /// The current value of the number option `key`.
    pub fn get_i64(&self, key: &str) -> (r: i64)
        requires
            exists|i: int| #[trigger] first_named(self.options(), key@, i) && self.options()[i].value is Spin,
        ensures
            exists|i: int| #[trigger] first_named(self.options(), key@, i) && self.options()[i].value is Spin
                && r == self.options()[i].value->Spin_current,
    {
        let i = self.find(key).unwrap();
        match &self.v[i].value {
            UsiOptionValue::Spin { current, .. } => *current,
            _ => {
                proof {
                    let j = choose|j: int| #[trigger] first_named(self.options(), key@, j) && self.options()[j].value is Spin;
                    assert(j == i as int);
                }
                0
            },
        }
    }

    /// The current value of the string option `key`.
    pub fn get_string(&self, key: &str) -> (r: String)
        requires
            exists|i: int| #[trigger] first_named(self.options(), key@, i) && self.options()[i].value is String,
        ensures
            exists|i: int| #[trigger] first_named(self.options(), key@, i) && self.options()[i].value is String
                && r@ == self.options()[i].value->String_current@,
    {
        let i = self.find(key).unwrap();
        match &self.v[i].value {
            UsiOptionValue::String { current, .. } => current.clone(),
            _ => {
                proof {
                    let j = choose|j: int| #[trigger] first_named(self.options(), key@, j) && self.options()[j].value is String;
                    assert(j == i as int);
                }
                String::new()
            },
        }
    }

    /// The current value of the file-name option `key`.
    pub fn get_filename(&self, key: &str) -> (r: String)
        requires
            exists|i: int| #[trigger] first_named(self.options(), key@, i) && self.options()[i].value is Filename,
        ensures
            exists|i: int| #[trigger] first_named(self.options(), key@, i) && self.options()[i].value is Filename
                && r@ == self.options()[i].value->Filename_current@,
    {
        let i = self.find(key).unwrap();
        match &self.v[i].value {
            UsiOptionValue::Filename { current, .. } => current.clone(),
            _ => {
                proof {
                    let j = choose|j: int| #[trigger] first_named(self.options(), key@, j) && self.options()[j].value is Filename;
                    assert(j == i as int);
                }
                String::new()
            },
        }
    }

    /// The current value of the check option `key`.
    pub fn get_bool(&self, key: &str) -> (r: bool)
        requires
            exists|i: int| #[trigger] first_named(self.options(), key@, i) && self.options()[i].value is Check,
        ensures
            exists|i: int| #[trigger] first_named(self.options(), key@, i) && self.options()[i].value is Check
                && r == self.options()[i].value->Check_current,
    {
        let i = self.find(key).unwrap();
        match &self.v[i].value {
            UsiOptionValue::Check { current, .. } => *current,
            _ => {
                proof {
                    let j = choose|j: int| #[trigger] first_named(self.options(), key@, j) && self.options()[j].value is Check;
                    assert(j == i as int);
                }
                false
            },
        }
    }
}

/// Whether every character of `s` is an ASCII digit.
pub open spec fn all_digits(s: Seq<char>) -> bool {
    forall|k: int| 0 <= k < s.len() ==> '0' <= #[trigger] s[k] <= '9'
}

/// The number that a string of ASCII digits writes in decimal.
pub open spec fn digits_value(s: Seq<char>) -> int
    decreases s.len(),
{
    if s.len() == 0 {
        0
    } else {
        digits_value(s.drop_last()) * 10 + (s.last() as int - '0' as int)
    }
}

/// What `str::parse::<i64>` gives: an optional `+` or `-`, then one or more ASCII digits,
/// whose value fits in an `i64`.
pub open spec fn parsed_i64(s: Seq<char>) -> Option<i64> {
    let neg = s.len() > 0 && s[0] == '-';
    let body = if s.len() > 0 && (s[0] == '-' || s[0] == '+') { s.drop_first() } else { s };
    let v = if neg { -digits_value(body) } else { digits_value(body) };
    if body.len() > 0 && all_digits(body) && i64::MIN <= v <= i64::MAX {
        Some(v as i64)
    } else {
        None
    }
}

proof fn lemma_digits_value_nonneg(s: Seq<char>)
    requires all_digits(s),
    ensures digits_value(s) >= 0,
    decreases s.len(),
{
    if s.len() > 0 {
        assert(all_digits(s.drop_last())) by {
            assert forall|k: int| 0 <= k < s.drop_last().len() implies '0' <= #[trigger] s.drop_last()[k] <= '9' by {
                assert(s.drop_last()[k] == s[k]);
            }
        }
        lemma_digits_value_nonneg(s.drop_last());
        assert('0' <= s[s.len() - 1] <= '9');
    }
}

/// Parses a decimal integer as `str::parse::<i64>` does: see `parsed_i64`.
fn parse_i64(s: &str) -> (r: Option<i64>)
    ensures r == parsed_i64(s@),
{
    let n = s.unicode_len();
    if n == 0 {
        return None;
    }
    let c0 = s.get_char(0);
    let neg = c0 == '-';
    let start: usize = if c0 == '+' || c0 == '-' { 1 } else { 0 };
    let ghost body = if s@.len() > 0 && (s@[0] == '-' || s@[0] == '+') { s@.drop_first() } else { s@ };
    assert(body =~= s@.subrange(start as int, n as int));
    if start >= n {
        return None;
    }
    let big: u64 = 0x8000_0000_0000_0000;
    let mut v: u64 = 0;
    let mut over = false;
    let mut j: usize = start;
    proof {
        assert(s@.subrange(start as int, start as int) =~= Seq::<char>::empty());
    }
    while j < n
        invariant
            start <= j <= n,
            n == s@.len(),
            start < n,
            big == 0x8000_0000_0000_0000u64,
            body == (if s@.len() > 0 && (s@[0] == '-' || s@[0] == '+') { s@.drop_first() } else { s@ }),
            body =~= s@.subrange(start as int, n as int),
            all_digits(s@.subrange(start as int, j as int)),
            over == (digits_value(s@.subrange(start as int, j as int)) > big),
            !over ==> v == digits_value(s@.subrange(start as int, j as int)),
            v <= big,
        decreases n - j,
    {
        let c = s.get_char(j);
        if !('0' <= c && c <= '9') {
            proof {
                assert(body[j - start] == c);
                assert(!all_digits(body));
            }
            return None;
        }
        let d = (c as u32 - 48) as u64;
        proof {
            let t = s@.subrange(start as int, j as int + 1);
            assert(t.drop_last() =~= s@.subrange(start as int, j as int));
            assert(t.last() == c);
            assert(all_digits(t)) by {
                assert forall|k: int| 0 <= k < t.len() implies '0' <= #[trigger] t[k] <= '9' by {
                    if k < t.len() - 1 {
                        assert(t[k] == t.drop_last()[k]);
                    }
                }
            }
            lemma_digits_value_nonneg(t.drop_last());
            assert(digits_value(t) == digits_value(s@.subrange(start as int, j as int)) * 10 + d);
        }
        if !over {
            if v > (big - d) / 10 {
                over = true;
                assert(v * 10 + d > big) by (nonlinear_arith)
                    requires v > (big - d) / 10, 0 <= d <= 9, big == 0x8000_0000_0000_0000u64;
            } else {
                assert(v * 10 + d <= big) by (nonlinear_arith)
                    requires v <= (big - d) / 10, 0 <= d <= 9, big == 0x8000_0000_0000_0000u64;
                v = v * 10 + d;
            }
        }
        j = j + 1;
    }
    assert(s@.subrange(start as int, n as int) =~= body);
    assert(neg == (s@.len() > 0 && s@[0] == '-'));
    if over {
        return None;
    }
    if neg {
        if v == big {
            Some(i64::MIN)
        } else {
            Some(-(v as i64))
        }
    } else {
        if v > 0x7fff_ffff_ffff_ffffu64 {
            None
        } else {
            Some(v as i64)
        }
    }
}

/// What a `setoption` command leads to, besides the new value of the option.
#[derive(Debug, Clone, Copy, PartialEq, Eq, Structural)]
pub enum SetOptionOutcome {
    /// No option has that name.
    IllegalName,
    /// The option is a button, which takes no value.
    IsButton,
    /// A check option was given neither `true` nor `false`.
    IllegalValue,
    /// A number option was given a value that is not an `i64`.
    NotANumber,
    /// The option was set.
    Updated,
    /// The option was set and the engine must be made ready again (new evaluation files or
    /// book).
    UpdatedNotReady,
    /// The number of threads was set to this.
    SetThreads(i64),
    /// The size of the hash table (in megabytes) was set to this.
    SetHashSize(i64),
    /// The size of the evaluation hash (in megabytes) was set to this.
    SetEvalHashSize(i64),
}

/// `n` brought within `[min, max]`: first capped at `max`, then raised to `min`.
pub open spec fn clamp(n: i64, min: i64, max: i64) -> i64 {
    let m = if n < max { n } else { max };
    if m > min { m } else { min }
}

/// The options after setting option `i` from the text `value`, and what follows from it.
pub open spec fn set_option_effect(o: UsiOption, value: Seq<char>) -> (UsiOptionValue, SetOptionOutcome) {
    match o.value {
        UsiOptionValue::String { default, current } => (
            o.value,
            if o.name@ == UsiOptions::EVAL_DIR@ { SetOptionOutcome::UpdatedNotReady } else { SetOptionOutcome::Updated },
        ),
        UsiOptionValue::Filename { default, current } => (
            o.value,
            if o.name@ == UsiOptions::BOOK_FILE@ { SetOptionOutcome::UpdatedNotReady } else { SetOptionOutcome::Updated },
        ),
        UsiOptionValue::Spin { default, current, min, max } => match parsed_i64(value) {
            Some(n) => {
                let c = clamp(n, min, max);
                (
                    UsiOptionValue::Spin { default, current: c, min, max },
                    if o.name@ == UsiOptions::THREADS@ {
                        SetOptionOutcome::SetThreads(c)
                    } else if o.name@ == UsiOptions::USI_HASH@ {
                        SetOptionOutcome::SetHashSize(c)
                    } else if o.name@ == UsiOptions::EVAL_HASH@ {
                        SetOptionOutcome::SetEvalHashSize(c)
                    } else {
                        SetOptionOutcome::Updated
                    },
                )
            },
            None => (o.value, SetOptionOutcome::NotANumber),
        },
        UsiOptionValue::Check { default, current } => if value == "true"@ {
            (UsiOptionValue::Check { default, current: true }, SetOptionOutcome::Updated)
        } else if value == "false"@ {
            (UsiOptionValue::Check { default, current: false }, SetOptionOutcome::Updated)
        } else {
            (o.value, SetOptionOutcome::IllegalValue)
        },
        UsiOptionValue::Button => (o.value, SetOptionOutcome::IsButton),
    }
}

fn str_eq(a: &str, b: &str) -> (r: bool)
    ensures r == (a@ == b@),
{
    a.to_owned() == b.to_owned()
}

impl UsiOptions {
    /// Sets option `key` from the text `value`: a string or file name takes the text, a
    /// number the parsed value brought within its bounds, a check `true` or `false`; the
    /// result says what the caller must do next (resize the hash table, start threads, load
    /// files again) or why nothing was set.
    pub fn set_value(&mut self, key: &str, value: &str) -> (r: SetOptionOutcome)
        ensures
            final(self).options().len() == old(self).options().len(),
            forall|j: int| 0 <= j < old(self).options().len() ==> #[trigger] final(self).options()[j].name == old(self).options()[j].name,
            Self::names_distinct(old(self).options()) ==> Self::names_distinct(final(self).options()),
            match r {
                SetOptionOutcome::IllegalName => final(self).options() == old(self).options()
                    && forall|j: int| 0 <= j < old(self).options().len() ==> #[trigger] old(self).options()[j].name@ != key@,
                _ => exists|i: int| #[trigger] first_named(old(self).options(), key@, i)
                    && r == set_option_effect(old(self).options()[i], value@).1
                    && (match old(self).options()[i].value {
                        UsiOptionValue::String { default, .. } => final(self).options().len() == old(self).options().len()
                            && final(self).options()[i].name == old(self).options()[i].name
                            && final(self).options()[i].value is String
                            && final(self).options()[i].value->String_default == default
                            && final(self).options()[i].value->String_current@ == value@
                            && forall|j: int| 0 <= j < old(self).options().len() && j != i
                                ==> #[trigger] final(self).options()[j] == old(self).options()[j],
                        UsiOptionValue::Filename { default, .. } => final(self).options().len() == old(self).options().len()
                            && final(self).options()[i].name == old(self).options()[i].name
                            && final(self).options()[i].value is Filename
                            && final(self).options()[i].value->Filename_default == default
                            && final(self).options()[i].value->Filename_current@ == value@
                            && forall|j: int| 0 <= j < old(self).options().len() && j != i
                                ==> #[trigger] final(self).options()[j] == old(self).options()[j],
                        _ => final(self).options() == old(self).options().update(i, UsiOption {
                            name: old(self).options()[i].name,
                            value: set_option_effect(old(self).options()[i], value@).0,
                        }),
                    }),
            },
    {
        match self.find(key) {
            None => SetOptionOutcome::IllegalName,
            Some(i) => {
                let name = self.v[i].name.clone();
                let ghost o = self.v@[i as int];
                match &self.v[i].value {
                    UsiOptionValue::String { default, .. } => {
                        let default = default.clone();
                        let outcome = if str_eq(key, UsiOptions::EVAL_DIR) {
                            SetOptionOutcome::UpdatedNotReady
                        } else {
                            SetOptionOutcome::Updated
                        };
                        self.v.set(i, UsiOption { name, value: UsiOptionValue::String { default, current: value.to_owned() } });
                        outcome
                    },
                    UsiOptionValue::Filename { default, .. } => {
                        let default = default.clone();
                        let outcome = if str_eq(key, UsiOptions::BOOK_FILE) {
                            SetOptionOutcome::UpdatedNotReady
                        } else {
                            SetOptionOutcome::Updated
                        };
                        self.v.set(i, UsiOption { name, value: UsiOptionValue::Filename { default, current: value.to_owned() } });
                        outcome
                    },
                    UsiOptionValue::Spin { default, current, min, max } => match parse_i64(value) {
                        Some(n) => {
                            let (default, min, max) = (*default, *min, *max);
                            let n = if n < max { n } else { max };
                            let n = if n > min { n } else { min };
                            let outcome = if str_eq(key, UsiOptions::THREADS) {
                                SetOptionOutcome::SetThreads(n)
                            } else if str_eq(key, UsiOptions::USI_HASH) {
                                SetOptionOutcome::SetHashSize(n)
                            } else if str_eq(key, UsiOptions::EVAL_HASH) {
                                SetOptionOutcome::SetEvalHashSize(n)
                            } else {
                                SetOptionOutcome::Updated
                            };
                            self.v.set(i, UsiOption { name, value: UsiOptionValue::Spin { default, current: n, min, max } });
                            outcome
                        },
                        None => {
                            proof { assert(self.v@.update(i as int, UsiOption { name: o.name, value: o.value }) =~= self.v@); }
                            SetOptionOutcome::NotANumber
                        },
                    },
                    UsiOptionValue::Check { default, current } => {
                        let default = *default;
                        if str_eq(value, "true") {
                            self.v.set(i, UsiOption { name, value: UsiOptionValue::Check { default, current: true } });
                            SetOptionOutcome::Updated
                        } else if str_eq(value, "false") {
                            self.v.set(i, UsiOption { name, value: UsiOptionValue::Check { default, current: false } });
                            SetOptionOutcome::Updated
                        } else {
                            proof { assert(self.v@.update(i as int, UsiOption { name: o.name, value: o.value }) =~= self.v@); }
                            SetOptionOutcome::IllegalValue
                        }
                    },
                    UsiOptionValue::Button => {
                        proof { assert(self.v@.update(i as int, UsiOption { name: o.name, value: o.value }) =~= self.v@); }
                        SetOptionOutcome::IsButton
                    },
                }
            },
        }
    }
}

/// What pressing a button option leads to.
#[derive(Debug, Clone, Copy, PartialEq, Eq, Structural)]
pub enum PushButtonOutcome {
    /// No option has that name.
    IllegalName,
    /// The button was pressed (for `Clear_Hash`, the hash table is to be cleared).
    Pressed,
    /// The option is not a button.
    NotAButton,
}

impl UsiOptions {
    /// Presses the button option `key`: says whether there is such an option and whether it
    /// is a button.
    pub fn push_button(&self, key: &str) -> (r: PushButtonOutcome)
        ensures
            match r {
                PushButtonOutcome::IllegalName => forall|j: int| 0 <= j < self.options().len()
                    ==> #[trigger] self.options()[j].name@ != key@,
                PushButtonOutcome::Pressed => exists|i: int| #[trigger] first_named(self.options(), key@, i)
                    && self.options()[i].value is Button,
                PushButtonOutcome::NotAButton => exists|i: int| #[trigger] first_named(self.options(), key@, i)
                    && !(self.options()[i].value is Button),
            },
    {
        match self.find(key) {
            None => PushButtonOutcome::IllegalName,
            Some(i) => match &self.v[i].value {
                UsiOptionValue::Button => PushButtonOutcome::Pressed,
                _ => PushButtonOutcome::NotAButton,
            },
        }
    }
}

} // verus!
