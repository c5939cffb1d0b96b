//! Observer configuration: the `key: value` option string, its grammar, and
//! the parsed configuration record.
//!
//! The grammar: pairs are separated by whitespace; a key is a run of
//! non-whitespace characters up to a `:`; the value is either a double-quoted
//! run (for strings containing spaces) or a run of non-whitespace characters.
//! Unrecognized keys are ignored; a recognized key with a malformed value, or
//! a structurally malformed string, rejects the whole configuration.

use vstd::prelude::*;
use vstd::string::*;
use crate::dec::Dec;

verus! {

/// The recognized configuration, with every value in its parsed form.
pub struct ObserverConfig {
    pub result_folder: String,
    pub algorithm_name: String,
    pub algorithm_info: String,
    pub number_target_triggers: u64,
    pub target_precision: Dec,
    pub number_evaluation_triggers: u64,
    pub base_evaluation_triggers: Vec<u64>,
    pub precision_x: u64,
    pub precision_f: u64,
    pub precision_g: u64,
    pub log_discrete_as_int: u64,
}

/// The mathematical shadow of [`ObserverConfig`].
pub struct ConfigV {
    pub result_folder: Seq<char>,
    pub algorithm_name: Seq<char>,
    pub algorithm_info: Seq<char>,
    pub number_target_triggers: u64,
    pub target_precision: Dec,
    pub number_evaluation_triggers: u64,
    pub base_evaluation_triggers: Seq<u64>,
    pub precision_x: u64,
    pub precision_f: u64,
    pub precision_g: u64,
    pub log_discrete_as_int: u64,
}

impl View for ObserverConfig {
    type V = ConfigV;

    open spec fn view(&self) -> ConfigV {
        ConfigV {
            result_folder: self.result_folder@,
            algorithm_name: self.algorithm_name@,
            algorithm_info: self.algorithm_info@,
            number_target_triggers: self.number_target_triggers,
            target_precision: self.target_precision,
            number_evaluation_triggers: self.number_evaluation_triggers,
            base_evaluation_triggers: self.base_evaluation_triggers@,
            precision_x: self.precision_x,
            precision_f: self.precision_f,
            precision_g: self.precision_g,
            log_discrete_as_int: self.log_discrete_as_int,
        }
    }
}

/// The documented defaults.
pub open spec fn default_config_v() -> ConfigV {
    ConfigV {
        result_folder: "default"@,
        algorithm_name: "ALG"@,
        algorithm_info: Seq::<char>::empty(),
        number_target_triggers: 100,
        target_precision: Dec { m: 1i64, e: -8i32 },
        number_evaluation_triggers: 20,
        base_evaluation_triggers: seq![1u64, 2u64, 5u64],
        precision_x: 8,
        precision_f: 15,
        precision_g: 3,
        log_discrete_as_int: 0,
    }
}

/// A parsed configuration the observer accepts: at least one target per
/// decade, a positive precision, a nonempty list of positive bases, and a
/// boolean integer-logging flag.
pub open spec fn valid_config(c: ConfigV) -> bool {
    &&& c.number_target_triggers >= 1
    &&& c.target_precision.m >= 1
    &&& c.base_evaluation_triggers.len() >= 1
    &&& forall|i: int|
        0 <= i < c.base_evaluation_triggers.len() ==> #[trigger] c.base_evaluation_triggers[i]
            >= 1
    &&& c.log_discrete_as_int <= 1
}

impl ObserverConfig {
    /// Builds the defaults.
    pub fn default_config() -> (c: ObserverConfig)
        ensures
            c@ == default_config_v(),
    {
        let mut bases: Vec<u64> = Vec::new();
        bases.push(1);
        bases.push(2);
        bases.push(5);
        proof {
            assert(bases@ =~= seq![1u64, 2u64, 5u64]);
        }
        let c = ObserverConfig {
            result_folder: String::from_str("default"),
            algorithm_name: String::from_str("ALG"),
            algorithm_info: String::new(),
            number_target_triggers: 100,
            target_precision: Dec { m: 1i64, e: -8i32 },
            number_evaluation_triggers: 20,
            base_evaluation_triggers: bases,
            precision_x: 8,
            precision_f: 15,
            precision_g: 3,
            log_discrete_as_int: 0,
        };
        c
    }

    /// Checks the documented wellformedness of a parsed configuration.
    pub fn validate(&self) -> (r: bool)
        ensures
            r == valid_config(self@),
    {
        if self.number_target_triggers < 1 {
            return false;
        }
        if self.target_precision.m < 1 {
            return false;
        }
        if self.base_evaluation_triggers.len() < 1 {
            return false;
        }
        if self.log_discrete_as_int > 1 {
            return false;
        }
        let mut i: usize = 0;
        while i < self.base_evaluation_triggers.len()
            invariant
                i <= self.base_evaluation_triggers@.len(),
                forall|k: int| 0 <= k < i ==> #[trigger] self.base_evaluation_triggers@[k] >= 1,
            decreases self.base_evaluation_triggers@.len() - i,
        {
            if self.base_evaluation_triggers[i] == 0 {
                return false;
            }
            i = i + 1;
        }
        true
    }
}

pub open spec fn is_space(c: char) -> bool {
    c == ' ' || c == '\t' || c == '\n' || c == '\r'
}

pub open spec fn is_digit(c: char) -> bool {
    '0' as u32 <= c as u32 <= '9' as u32
}

pub open spec fn digit_val(c: char) -> int {
    c as u32 - '0' as u32
}

/// First index at or after `i` holding a non-space character.
pub open spec fn skip_spaces(s: Seq<char>, i: int) -> int
    decreases s.len() - i when 0 <= i <= s.len()
{
    if i < s.len() && is_space(s[i]) {
        skip_spaces(s, i + 1)
    } else {
        i
    }
}

pub proof fn lemma_skip_spaces_bounds(s: Seq<char>, i: int)
    requires
        0 <= i <= s.len(),
    ensures
        i <= skip_spaces(s, i) <= s.len(),
    decreases s.len() - i,
{
    if i < s.len() && is_space(s[i]) {
        lemma_skip_spaces_bounds(s, i + 1);
    }
}

/// First index at or after `i` ending a key: a `:`, a space, or the end.
pub open spec fn scan_key_end(s: Seq<char>, i: int) -> int
    decreases s.len() - i when 0 <= i <= s.len()
{
    if i < s.len() && s[i] != ':' && !is_space(s[i]) {
        scan_key_end(s, i + 1)
    } else {
        i
    }
}

pub proof fn lemma_scan_key_end_bounds(s: Seq<char>, i: int)
    requires
        0 <= i <= s.len(),
    ensures
        i <= scan_key_end(s, i) <= s.len(),
    decreases s.len() - i,
{
    if i < s.len() && s[i] != ':' && !is_space(s[i]) {
        lemma_scan_key_end_bounds(s, i + 1);
    }
}

/// First index at or after `i` holding a space, or the end.
pub open spec fn scan_plain_end(s: Seq<char>, i: int) -> int
    decreases s.len() - i when 0 <= i <= s.len()
{
    if i < s.len() && !is_space(s[i]) {
        scan_plain_end(s, i + 1)
    } else {
        i
    }
}

pub proof fn lemma_scan_plain_end_bounds(s: Seq<char>, i: int)
    requires
        0 <= i <= s.len(),
    ensures
        i <= scan_plain_end(s, i) <= s.len(),
    decreases s.len() - i,
{
    if i < s.len() && !is_space(s[i]) {
        lemma_scan_plain_end_bounds(s, i + 1);
    }
}

/// First index at or after `i` holding a double quote, or the end.
pub open spec fn scan_quote_end(s: Seq<char>, i: int) -> int
    decreases s.len() - i when 0 <= i <= s.len()
{
    if i < s.len() && s[i] != '"' {
        scan_quote_end(s, i + 1)
    } else {
        i
    }
}

pub proof fn lemma_scan_quote_end_bounds(s: Seq<char>, i: int)
    requires
        0 <= i <= s.len(),
    ensures
        i <= scan_quote_end(s, i) <= s.len(),
    decreases s.len() - i,
{
    if i < s.len() && s[i] != '"' {
        lemma_scan_quote_end_bounds(s, i + 1);
    }
}

/// First index at or after `i` holding a non-digit, or the end.
pub open spec fn scan_digits_end(s: Seq<char>, i: int) -> int
    decreases s.len() - i when 0 <= i <= s.len()
{
    if i < s.len() && is_digit(s[i]) {
        scan_digits_end(s, i + 1)
    } else {
        i
    }
}

pub proof fn lemma_scan_digits_end_bounds(s: Seq<char>, i: int)
    requires
        0 <= i <= s.len(),
    ensures
        i <= scan_digits_end(s, i) <= s.len(),
    decreases s.len() - i,
{
    if i < s.len() && is_digit(s[i]) {
        lemma_scan_digits_end_bounds(s, i + 1);
    }
}

/// First index at or after `i` holding a comma, or the end.
pub open spec fn scan_comma_end(s: Seq<char>, i: int) -> int
    decreases s.len() - i when 0 <= i <= s.len()
{
    if i < s.len() && s[i] != ',' {
        scan_comma_end(s, i + 1)
    } else {
        i
    }
}

pub proof fn lemma_scan_comma_end_bounds(s: Seq<char>, i: int)
    requires
        0 <= i <= s.len(),
    ensures
        i <= scan_comma_end(s, i) <= s.len(),
    decreases s.len() - i,
{
    if i < s.len() && s[i] != ',' {
        lemma_scan_comma_end_bounds(s, i + 1);
    }
}

/// Reads the digits of `s[i..j)` into `acc` in base ten; fails on a non-digit
/// or when the value leaves the counter range.
pub open spec fn parse_u64_acc(s: Seq<char>, i: int, j: int, acc: u64) -> Option<u64>
    decreases j - i,
{
    if i >= j {
        Some(acc)
    } else if !is_digit(s[i]) {
        None
    } else if acc * 10 + digit_val(s[i]) > u64::MAX {
        None
    } else {
        parse_u64_acc(s, i + 1, j, (acc * 10 + digit_val(s[i])) as u64)
    }
}

/// A whole token as an unsigned number: nonempty, digits only.
pub open spec fn parse_u64_s(v: Seq<char>) -> Option<u64> {
    if v.len() == 0 {
        None
    } else {
        parse_u64_acc(v, 0, v.len() as int, 0)
    }
}

/// A comma-separated list of unsigned numbers.
pub open spec fn parse_u64_list_s(v: Seq<char>, i: int) -> Option<Seq<u64>>
    decreases v.len() - i when 0 <= i <= v.len() via parse_u64_list_s_dec
{
    let j = scan_comma_end(v, i);
    match parse_u64_acc(v, i, j, 0) {
        Option::None => None,
        Option::Some(n) => {
            if j >= v.len() {
                Some(seq![n])
            } else {
                match parse_u64_list_s(v, j + 1) {
                    Option::None => None,
                    Option::Some(rest) => Some(seq![n] + rest),
                }
            }
        },
    }
}

#[via_fn]
proof fn parse_u64_list_s_dec(v: Seq<char>, i: int) {
    lemma_scan_comma_end_bounds(v, i);
}

/// A decimal literal `[-]digits[.digits][(e|E)[+|-]digits]`, read into an
/// exact decimal. Fails when the mantissa leaves the signed 64-bit range or
/// the exponent is absurd.
pub open spec fn parse_dec_s(v: Seq<char>) -> Option<Dec> {
    let neg = v.len() > 0 && v[0] == '-';
    let i0: int = if neg {
        1
    } else {
        0
    };
    let de = scan_digits_end(v, i0);
    if de == i0 {
        None
    } else {
        match parse_u64_acc(v, i0, de, 0) {
            Option::None => None,
            Option::Some(ip) => {
                if de < v.len() && v[de] == '.' {
                    let fe = scan_digits_end(v, de + 1);
                    if fe == de + 1 {
                        None
                    } else {
                        match parse_u64_acc(v, de + 1, fe, ip) {
                            Option::None => None,
                            Option::Some(m) => parse_dec_tail(v, fe, m, fe - de - 1, neg),
                        }
                    }
                } else {
                    parse_dec_tail(v, de, ip, 0, neg)
                }
            },
        }
    }
}

/// The exponent part of a decimal literal, then assembly.
pub open spec fn parse_dec_tail(v: Seq<char>, i: int, m: u64, fraclen: int, neg: bool) -> Option<
    Dec,
> {
    if i >= v.len() {
        finish_dec(m, -fraclen, neg)
    } else if v[i] == 'e' || v[i] == 'E' {
        let esign = i + 1 < v.len() && v[i + 1] == '-';
        let j: int = if i + 1 < v.len() && (v[i + 1] == '-' || v[i + 1] == '+') {
            i + 2
        } else {
            i + 1
        };
        let ee = scan_digits_end(v, j);
        if ee == j || ee != v.len() {
            None
        } else {
            match parse_u64_acc(v, j, ee, 0) {
                Option::None => None,
                Option::Some(ex) => {
                    if ex > 100000 {
                        None
                    } else if esign {
                        finish_dec(m, -(ex as int) - fraclen, neg)
                    } else {
                        finish_dec(m, ex as int - fraclen, neg)
                    }
                },
            }
        }
    } else {
        None
    }
}

pub open spec fn finish_dec(m: u64, e: int, neg: bool) -> Option<Dec> {
    if m > i64::MAX || e < -1000000 || e > 1000000 {
        None
    } else {
        Some(
            Dec {
                m: if neg {
                    -(m as int) as i64
                } else {
                    m as i64
                },
                e: e as i32,
            },
        )
    }
}

/// One recognized pair folded into the configuration; unknown keys are kept
/// as-is, malformed values of known keys reject.
pub open spec fn apply_pair(k: Seq<char>, v: Seq<char>, c: ConfigV) -> Option<ConfigV> {
    if k == "result_folder"@ {
        Some(ConfigV { result_folder: v, ..c })
    } else if k == "algorithm_name"@ {
        Some(ConfigV { algorithm_name: v, ..c })
    } else if k == "algorithm_info"@ {
        Some(ConfigV { algorithm_info: v, ..c })
    } else if k == "number_target_triggers"@ {
        match parse_u64_s(v) {
            Option::None => None,
            Option::Some(n) => Some(ConfigV { number_target_triggers: n, ..c }),
        }
    } else if k == "target_precision"@ {
        match parse_dec_s(v) {
            Option::None => None,
            Option::Some(d) => Some(ConfigV { target_precision: d, ..c }),
        }
    } else if k == "number_evaluation_triggers"@ {
        match parse_u64_s(v) {
            Option::None => None,
            Option::Some(n) => Some(ConfigV { number_evaluation_triggers: n, ..c }),
        }
    } else if k == "base_evaluation_triggers"@ {
        if v.len() == 0 {
            None
        } else {
            match parse_u64_list_s(v, 0) {
                Option::None => None,
                Option::Some(bs) => Some(ConfigV { base_evaluation_triggers: bs, ..c }),
            }
        }
    } else if k == "precision_x"@ {
        match parse_u64_s(v) {
            Option::None => None,
            Option::Some(n) => Some(ConfigV { precision_x: n, ..c }),
        }
    } else if k == "precision_f"@ {
        match parse_u64_s(v) {
            Option::None => None,
            Option::Some(n) => Some(ConfigV { precision_f: n, ..c }),
        }
    } else if k == "precision_g"@ {
        match parse_u64_s(v) {
            Option::None => None,
            Option::Some(n) => Some(ConfigV { precision_g: n, ..c }),
        }
    } else if k == "log_discrete_as_int"@ {
        match parse_u64_s(v) {
            Option::None => None,
            Option::Some(n) => Some(ConfigV { log_discrete_as_int: n, ..c }),
        }
    } else {
        Some(c)
    }
}

/// The whole option string from position `i` on, folded into `c`.
pub open spec fn parse_options_s(s: Seq<char>, i: int, c: ConfigV) -> Option<ConfigV>
    decreases s.len() - i when 0 <= i <= s.len() via parse_options_s_dec
{
    let j = skip_spaces(s, i);
    if j >= s.len() {
        Some(c)
    } else {
        let ke = scan_key_end(s, j);
        if ke == j || ke >= s.len() || s[ke] != ':' {
            None
        } else {
            let vs = skip_spaces(s, ke + 1);
            if vs < s.len() && s[vs] == '"' {
                let vq = scan_quote_end(s, vs + 1);
                if vq >= s.len() {
                    None
                } else {
                    match apply_pair(s.subrange(j, ke), s.subrange(vs + 1, vq), c) {
                        Option::None => None,
                        Option::Some(c2) => parse_options_s(s, vq + 1, c2),
                    }
                }
            } else {
                let ve = scan_plain_end(s, vs);
                match apply_pair(s.subrange(j, ke), s.subrange(vs, ve), c) {
                    Option::None => None,
                    Option::Some(c2) => parse_options_s(s, ve, c2),
                }
            }
        }
    }
}

#[via_fn]
proof fn parse_options_s_dec(s: Seq<char>, i: int, c: ConfigV) {
    lemma_skip_spaces_bounds(s, i);
    let j = skip_spaces(s, i);
    if j < s.len() {
        lemma_scan_key_end_bounds(s, j);
        let ke = scan_key_end(s, j);
        if ke < s.len() {
            lemma_skip_spaces_bounds(s, ke + 1);
            let vs = skip_spaces(s, ke + 1);
            if vs < s.len() {
                lemma_scan_quote_end_bounds(s, vs + 1);
            }
            if vs <= s.len() {
                lemma_scan_plain_end_bounds(s, vs);
            }
        }
    }
}

fn space_char(c: char) -> (r: bool)
    ensures
        r == is_space(c),
{
    c == ' ' || c == '\t' || c == '\n' || c == '\r'
}

fn digit_char_p(c: char) -> (r: bool)
    ensures
        r == is_digit(c),
{
    '0' as u32 <= c as u32 && c as u32 <= '9' as u32
}

fn skip_spaces_x(s: &str, i: usize) -> (r: usize)
    requires
        i <= s@.len(),
    ensures
        r == skip_spaces(s@, i as int),
        i <= r <= s@.len(),
    decreases s@.len() - i,
{
    proof {
        lemma_skip_spaces_bounds(s@, i as int);
    }
    if i < s.unicode_len() && space_char(s.get_char(i)) {
        skip_spaces_x(s, i + 1)
    } else {
        i
    }
}

fn scan_key_end_x(s: &str, i: usize) -> (r: usize)
    requires
        i <= s@.len(),
    ensures
        r == scan_key_end(s@, i as int),
        i <= r <= s@.len(),
    decreases s@.len() - i,
{
    proof {
        lemma_scan_key_end_bounds(s@, i as int);
    }
    if i < s.unicode_len() && s.get_char(i) != ':' && !space_char(s.get_char(i)) {
        scan_key_end_x(s, i + 1)
    } else {
        i
    }
}

fn scan_plain_end_x(s: &str, i: usize) -> (r: usize)
    requires
        i <= s@.len(),
    ensures
        r == scan_plain_end(s@, i as int),
        i <= r <= s@.len(),
    decreases s@.len() - i,
{
    proof {
        lemma_scan_plain_end_bounds(s@, i as int);
    }
    if i < s.unicode_len() && !space_char(s.get_char(i)) {
        scan_plain_end_x(s, i + 1)
    } else {
        i
    }
}

fn scan_quote_end_x(s: &str, i: usize) -> (r: usize)
    requires
        i <= s@.len(),
    ensures
        r == scan_quote_end(s@, i as int),
        i <= r <= s@.len(),
    decreases s@.len() - i,
{
    proof {
        lemma_scan_quote_end_bounds(s@, i as int);
    }
    if i < s.unicode_len() && s.get_char(i) != '"' {
        scan_quote_end_x(s, i + 1)
    } else {
        i
    }
}

fn scan_digits_end_x(s: &str, i: usize) -> (r: usize)
    requires
        i <= s@.len(),
    ensures
        r == scan_digits_end(s@, i as int),
        i <= r <= s@.len(),
    decreases s@.len() - i,
{
    proof {
        lemma_scan_digits_end_bounds(s@, i as int);
    }
    if i < s.unicode_len() && digit_char_p(s.get_char(i)) {
        scan_digits_end_x(s, i + 1)
    } else {
        i
    }
}

fn scan_comma_end_x(s: &str, i: usize) -> (r: usize)
    requires
        i <= s@.len(),
    ensures
        r == scan_comma_end(s@, i as int),
        i <= r <= s@.len(),
    decreases s@.len() - i,
{
    proof {
        lemma_scan_comma_end_bounds(s@, i as int);
    }
    if i < s.unicode_len() && s.get_char(i) != ',' {
        scan_comma_end_x(s, i + 1)
    } else {
        i
    }
}

fn parse_u64_acc_x(s: &str, i: usize, j: usize, acc: u64) -> (r: Option<u64>)
    requires
        i <= j <= s@.len(),
    ensures
        r == parse_u64_acc(s@, i as int, j as int, acc),
    decreases j - i,
{
    if i >= j {
        return Some(acc);
    }
    let c = s.get_char(i);
    if !digit_char_p(c) {
        return None;
    }
    let d: u64 = (c as u32 - '0' as u32) as u64;
    match acc.checked_mul(10) {
        Option::None => None,
        Option::Some(a) => match a.checked_add(d) {
            Option::None => None,
            Option::Some(a2) => parse_u64_acc_x(s, i + 1, j, a2),
        },
    }
}

fn parse_u64_x(v: &str) -> (r: Option<u64>)
    ensures
        r == parse_u64_s(v@),
{
    if v.unicode_len() == 0 {
        None
    } else {
        parse_u64_acc_x(v, 0, v.unicode_len(), 0)
    }
}

fn parse_u64_list_x(v: &str, i: usize) -> (r: Option<Vec<u64>>)
    requires
        i <= v@.len(),
    ensures
        match (r, parse_u64_list_s(v@, i as int)) {
            (Option::Some(out), Option::Some(bs)) => out@ == bs,
            (Option::None, Option::None) => true,
            _ => false,
        },
    decreases v@.len() - i,
{
    proof {
        lemma_scan_comma_end_bounds(v@, i as int);
    }
    let j = scan_comma_end_x(v, i);
    match parse_u64_acc_x(v, i, j, 0) {
        Option::None => None,
        Option::Some(n) => {
            if j >= v.unicode_len() {
                let mut out: Vec<u64> = Vec::new();
                out.push(n);
                proof {
                    assert(out@ =~= seq![n]);
                }
                Some(out)
            } else {
                match parse_u64_list_x(v, j + 1) {
                    Option::None => None,
                    Option::Some(mut rest) => {
                        let ghost rest_v = rest@;
                        let mut out: Vec<u64> = Vec::new();
                        out.push(n);
                        out.append(&mut rest);
                        proof {
                            assert(out@ =~= seq![n] + rest_v);
                        }
                        Some(out)
                    },
                }
            }
        },
    }
}

fn finish_dec_x(m: u64, e: i128, neg: bool) -> (r: Option<Dec>)
    ensures
        r == finish_dec(m, e as int, neg),
{
    if m > i64::MAX as u64 {
        None
    } else if e < -1000000 || e > 1000000 {
        None
    } else {
        Some(
            Dec {
                m: if neg {
                    -(m as i64)
                } else {
                    m as i64
                },
                e: e as i32,
            },
        )
    }
}

fn parse_dec_tail_x(v: &str, i: usize, m: u64, fraclen: u64, neg: bool) -> (r: Option<Dec>)
    requires
        i <= v@.len(),
        fraclen <= v@.len(),
    ensures
        r == parse_dec_tail(v@, i as int, m, fraclen as int, neg),
{
    let len = v.unicode_len();
    if i >= len {
        return finish_dec_x(m, -(fraclen as i128), neg);
    }
    let c = v.get_char(i);
    if c == 'e' || c == 'E' {
        let esign = i + 1 < len && v.get_char(i + 1) == '-';
        let j: usize = if i + 1 < len && (v.get_char(i + 1) == '-' || v.get_char(i + 1) == '+') {
            i + 2
        } else {
            i + 1
        };
        proof {
            lemma_scan_digits_end_bounds(v@, j as int);
        }
        let ee = scan_digits_end_x(v, j);
        if ee == j || ee != len {
            None
        } else {
            match parse_u64_acc_x(v, j, ee, 0) {
                Option::None => None,
                Option::Some(ex) => {
                    if ex > 100000 {
                        None
                    } else if esign {
                        finish_dec_x(m, -(ex as i128) - fraclen as i128, neg)
                    } else {
                        finish_dec_x(m, ex as i128 - fraclen as i128, neg)
                    }
                },
            }
        }
    } else {
        None
    }
}

fn parse_dec_x(v: &str) -> (r: Option<Dec>)
    ensures
        r == parse_dec_s(v@),
{
    let len = v.unicode_len();
    let neg = len > 0 && v.get_char(0) == '-';
    let i0: usize = if neg {
        1
    } else {
        0
    };
    proof {
        lemma_scan_digits_end_bounds(v@, i0 as int);
    }
    let de = scan_digits_end_x(v, i0);
    if de == i0 {
        return None;
    }
    match parse_u64_acc_x(v, i0, de, 0) {
        Option::None => None,
        Option::Some(ip) => {
            if de < len && v.get_char(de) == '.' {
                proof {
                    lemma_scan_digits_end_bounds(v@, de as int + 1);
                }
                let fe = scan_digits_end_x(v, de + 1);
                if fe == de + 1 {
                    None
                } else {
                    match parse_u64_acc_x(v, de + 1, fe, ip) {
                        Option::None => None,
                        Option::Some(m) => parse_dec_tail_x(v, fe, m, (fe - de - 1) as u64, neg),
                    }
                }
            } else {
                parse_dec_tail_x(v, de, ip, 0, neg)
            }
        },
    }
}

/// Compares `s[lo..hi)` with a literal, character by character.
fn range_eq(s: &str, lo: usize, hi: usize, lit: &str) -> (r: bool)
    requires
        lo <= hi <= s@.len(),
    ensures
        r == (s@.subrange(lo as int, hi as int) == lit@),
{
    let n = lit.unicode_len();
    if hi - lo != n {
        proof {
            assert(s@.subrange(lo as int, hi as int).len() == hi - lo);
        }
        return false;
    }
    let mut t: usize = 0;
    while t < n
        invariant
            lo <= hi <= s@.len(),
            n == lit@.len(),
            hi - lo == n,
            t <= n,
            forall|q: int|
                0 <= q < t ==> s@.subrange(lo as int, hi as int)[q] == #[trigger] lit@[q],
        decreases n - t,
    {
        let a = s.get_char(lo + t);
        let b = lit.get_char(t);
        if a != b {
            proof {
                assert(s@.subrange(lo as int, hi as int)[t as int] == a);
            }
            return false;
        }
        t = t + 1;
    }
    proof {
        assert(s@.subrange(lo as int, hi as int) =~= lit@);
    }
    true
}

fn apply_pair_x(s: &str, klo: usize, khi: usize, val: String, cfg: ObserverConfig) -> (r: Option<
    ObserverConfig,
>)
    requires
        klo <= khi <= s@.len(),
    ensures
        match (r, apply_pair(s@.subrange(klo as int, khi as int), val@, cfg@)) {
            (Option::Some(c2), Option::Some(cv)) => c2@ == cv,
            (Option::None, Option::None) => true,
            _ => false,
        },
{
    if range_eq(s, klo, khi, "result_folder") {
        Some(ObserverConfig { result_folder: val, ..cfg })
    } else if range_eq(s, klo, khi, "algorithm_name") {
        Some(ObserverConfig { algorithm_name: val, ..cfg })
    } else if range_eq(s, klo, khi, "algorithm_info") {
        Some(ObserverConfig { algorithm_info: val, ..cfg })
    } else if range_eq(s, klo, khi, "number_target_triggers") {
        match parse_u64_x(val.as_str()) {
            Option::None => None,
            Option::Some(n) => Some(ObserverConfig { number_target_triggers: n, ..cfg }),
        }
    } else if range_eq(s, klo, khi, "target_precision") {
        match parse_dec_x(val.as_str()) {
            Option::None => None,
            Option::Some(d) => Some(ObserverConfig { target_precision: d, ..cfg }),
        }
    } else if range_eq(s, klo, khi, "number_evaluation_triggers") {
        match parse_u64_x(val.as_str()) {
            Option::None => None,
            Option::Some(n) => Some(ObserverConfig { number_evaluation_triggers: n, ..cfg }),
        }
    } else if range_eq(s, klo, khi, "base_evaluation_triggers") {
        if val.as_str().unicode_len() == 0 {
            None
        } else {
            match parse_u64_list_x(val.as_str(), 0) {
                Option::None => None,
                Option::Some(bs) => Some(ObserverConfig { base_evaluation_triggers: bs, ..cfg }),
            }
        }
    } else if range_eq(s, klo, khi, "precision_x") {
        match parse_u64_x(val.as_str()) {
            Option::None => None,
            Option::Some(n) => Some(ObserverConfig { precision_x: n, ..cfg }),
        }
    } else if range_eq(s, klo, khi, "precision_f") {
        match parse_u64_x(val.as_str()) {
            Option::None => None,
            Option::Some(n) => Some(ObserverConfig { precision_f: n, ..cfg }),
        }
    } else if range_eq(s, klo, khi, "precision_g") {
        match parse_u64_x(val.as_str()) {
            Option::None => None,
            Option::Some(n) => Some(ObserverConfig { precision_g: n, ..cfg }),
        }
    } else if range_eq(s, klo, khi, "log_discrete_as_int") {
        match parse_u64_x(val.as_str()) {
            Option::None => None,
            Option::Some(n) => Some(ObserverConfig { log_discrete_as_int: n, ..cfg }),
        }
    } else {
        Some(cfg)
    }
}

fn parse_options_x(s: &str, i: usize, cfg: ObserverConfig) -> (r: Option<ObserverConfig>)
    requires
        i <= s@.len(),
    ensures
        match (r, parse_options_s(s@, i as int, cfg@)) {
            (Option::Some(c2), Option::Some(cv)) => c2@ == cv,
            (Option::None, Option::None) => true,
            _ => false,
        },
    decreases s@.len() - i,
{
    let j = skip_spaces_x(s, i);
    if j >= s.unicode_len() {
        return Some(cfg);
    }
    let ke = scan_key_end_x(s, j);
    if ke == j || ke >= s.unicode_len() || s.get_char(ke) != ':' {
        return None;
    }
    let vs = skip_spaces_x(s, ke + 1);
    if vs < s.unicode_len() && s.get_char(vs) == '"' {
        let vq = scan_quote_end_x(s, vs + 1);
        if vq >= s.unicode_len() {
            return None;
        }
        let val = String::from_str(s.substring_char(vs + 1, vq));
        match apply_pair_x(s, j, ke, val, cfg) {
            Option::None => None,
            Option::Some(c2) => parse_options_x(s, vq + 1, c2),
        }
    } else {
        let ve = scan_plain_end_x(s, vs);
        let val = String::from_str(s.substring_char(vs, ve));
        match apply_pair_x(s, j, ke, val, cfg) {
            Option::None => None,
            Option::Some(c2) => parse_options_x(s, ve, c2),
        }
    }
}

/// Parses a whole observer option string over the documented defaults.
pub fn parse_options(s: &str) -> (r: Option<ObserverConfig>)
    ensures
        match (r, parse_options_s(s@, 0, default_config_v())) {
            (Option::Some(c2), Option::Some(cv)) => c2@ == cv,
            (Option::None, Option::None) => true,
            _ => false,
        },
{
    let cfg = ObserverConfig::default_config();
    parse_options_x(s, 0, cfg)
}

} // verus!
