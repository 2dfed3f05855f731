//! Command-line handling of the `llvm-compile` driver: the usage text, parser
//! limit values, and the decision on each argument.

use vstd::prelude::*;
use vstd::string::StringExecFns;
use crate::backend::driver::{opt_level_named, OptLevel};
use crate::strings::{seq_starts_with, starts_with, str_equal};

verus! {

/// The usage line printed when no input file is given.
pub open spec fn usage_text() -> Seq<char> {
    "usage: llvm-compile <input.ll> -o <output.o> [-O <level>] [--target <arch>] [--production-parse-limits] [--max-input-bytes N] [--max-functions N] [--max-blocks-per-function N] [--max-instructions-per-function N] [--max-type-depth N] [--max-constant-depth N]"@
}

/// The usage line.
pub fn usage() -> (s: String)
    ensures
        s@ == usage_text(),
{
    "usage: llvm-compile <input.ll> -o <output.o> [-O <level>] [--target <arch>] [--production-parse-limits] [--max-input-bytes N] [--max-functions N] [--max-blocks-per-function N] [--max-instructions-per-function N] [--max-type-depth N] [--max-constant-depth N]".to_string()
}

/// `a` followed by `b`.
pub fn concat_str(a: &str, b: &str) -> (r: String)
    ensures
        r@ == a@ + b@,
{
    let mut r = a.to_string();
    r.append(b);
    r
}

// ── decimal numbers ────────────────────────────────────────────────────────

/// An ASCII decimal digit.
pub open spec fn is_digit(c: char) -> bool {
    '0' <= c && c <= '9'
}

/// The value of a string of decimal digits.
pub open spec fn digits_value(d: Seq<char>) -> nat
    decreases d.len(),
{
    if d.len() == 0 {
        0
    } else {
        digits_value(d.drop_last()) * 10 + (d.last() as nat - '0' as nat) as nat
    }
}

/// The digits of an unsigned number: the text without one leading `+`.
pub open spec fn unsigned_digits(s: Seq<char>) -> Seq<char> {
    if s.len() > 0 && s[0] == '+' {
        s.drop_first()
    } else {
        s
    }
}

/// `s` is the text of a `usize` in decimal: an optional `+`, then one or more
/// digits, with a value that fits.
pub open spec fn is_usize_text(s: Seq<char>) -> bool {
    let d = unsigned_digits(s);
    &&& d.len() > 0
    &&& forall|i: int| 0 <= i < d.len() ==> is_digit(#[trigger] d[i])
    &&& digits_value(d) <= usize::MAX
}

proof fn lemma_digits_value_mono(d: Seq<char>, i: int)
    requires
        0 <= i <= d.len(),
        forall|k: int| 0 <= k < d.len() ==> is_digit(#[trigger] d[k]),
    ensures
        digits_value(d.take(i)) <= digits_value(d),
    decreases d.len() - i,
{
    if i < d.len() {
        lemma_digits_value_mono(d, i + 1);
        assert(d.take(i + 1).drop_last() =~= d.take(i));
    } else {
        assert(d.take(i) =~= d);
    }
}

/// Parse `s` as a `usize` in decimal.
pub fn parse_usize(s: &str) -> (r: Option<usize>)
    ensures
        r == (if is_usize_text(s@) { Some(digits_value(unsigned_digits(s@)) as usize) } else { None }),
{
    let n = s.unicode_len();
    let mut i: usize = 0;
    if n > 0 && s.get_char(0) == '+' {
        i = 1;
    }
    let ghost d = unsigned_digits(s@);
    proof {
        assert(d =~= s@.subrange(i as int, s@.len() as int));
    }
    if i >= n {
        return None;
    }
    let start = i;
    let mut value: usize = 0;
    while i < n
        invariant
            n == s@.len(),
            start <= i <= n,
            start < n,
            d == unsigned_digits(s@),
            d == s@.subrange(start as int, n as int),
            forall|k: int| 0 <= k < i - start ==> is_digit(#[trigger] d[k]),
            value == digits_value(d.take(i - start)),
        decreases n - i,
    {
        let c = s.get_char(i);
        assert(d[i - start] == c);
        if !('0' <= c && c <= '9') {
            assert(!is_digit(d[i - start]));
            return None;
        }
        let digit = (c as u32 - '0' as u32) as usize;
        proof {
            assert(d.take(i - start + 1).drop_last() =~= d.take(i - start));
        }
        let next = match value.checked_mul(10) {
            Some(m) => m.checked_add(digit),
            None => None,
        };
        match next {
            Some(v) => {
                value = v;
            },
            None => {
                proof {
                    assert(forall|k: int| 0 <= k < i - start + 1 ==> is_digit(#[trigger] d[k]));
                    assert(digits_value(d.take(i - start + 1)) == value * 10 + digit);
                    assert(value * 10 + digit > usize::MAX);
                    if forall|k: int| 0 <= k < d.len() ==> is_digit(#[trigger] d[k]) {
                        lemma_digits_value_mono(d, i - start + 1);
                    }
                }
                return None;
            },
        }
        i = i + 1;
    }
    assert(d.take(i - start) =~= d);
    Some(value)
}

/// The decimal text of `n`, without leading zeros.
pub open spec fn decimal_text(n: nat) -> Seq<char>
    decreases n,
{
    if n < 10 {
        seq![(n + '0' as nat) as char]
    } else {
        decimal_text(n / 10).push(((n % 10) + '0' as nat) as char)
    }
}

proof fn lemma_decimal_text(n: nat)
    ensures
        decimal_text(n).len() > 0,
        decimal_text(n)[0] != '+',
        forall|i: int| 0 <= i < decimal_text(n).len() ==> is_digit(#[trigger] decimal_text(n)[i]),
        digits_value(decimal_text(n)) == n,
    decreases n,
{
    if n >= 10 {
        lemma_decimal_text(n / 10);
        let t = decimal_text(n / 10);
        let d = ((n % 10) + '0' as nat) as char;
        assert(decimal_text(n) == t.push(d));
        assert(decimal_text(n).drop_last() =~= t);
        assert forall|i: int| 0 <= i < decimal_text(n).len() implies is_digit(#[trigger] decimal_text(n)[i]) by {
            if i < t.len() {
                assert(decimal_text(n)[i] == t[i]);
            }
        }
        assert(decimal_text(n)[0] == t[0]);
        assert(d as nat == (n % 10) + 48);
        assert(digits_value(decimal_text(n)) == digits_value(t) * 10 + (d as nat - '0' as nat) as nat);
        assert((n / 10) * 10 + n % 10 == n) by (nonlinear_arith);
        assert(digits_value(t) == n / 10);
        assert(digits_value(decimal_text(n)) == n);
    } else {
        let d = (n + '0' as nat) as char;
        assert(d as nat == n + 48);
        assert(decimal_text(n).drop_last() =~= Seq::<char>::empty());
        assert(decimal_text(n).last() == d);
        assert(digits_value(Seq::<char>::empty()) == 0);
        assert(digits_value(decimal_text(n)) == n);
    }
}

/// Reading back the decimal text of any `usize` gives the number.
pub proof fn lemma_decimal_round_trip(n: usize)
    ensures
        is_usize_text(decimal_text(n as nat)),
        digits_value(unsigned_digits(decimal_text(n as nat))) == n,
{
    lemma_decimal_text(n as nat);
}

// ── parser limits ──────────────────────────────────────────────────────────

/// Limits on the size of the parsed input; `None` means unlimited.
#[derive(Clone, Copy, Debug, PartialEq, Eq, Structural)]
pub struct ParseLimits {
    /// Maximum input size in bytes.
    pub max_source_bytes: Option<usize>,
    /// Maximum number of functions and declarations.
    pub max_functions: Option<usize>,
    /// Maximum basic blocks per function.
    pub max_blocks_per_function: Option<usize>,
    /// Maximum instructions per function.
    pub max_instructions_per_function: Option<usize>,
    /// Maximum nesting of types.
    pub max_type_depth: Option<usize>,
    /// Maximum nesting of constants.
    pub max_constant_depth: Option<usize>,
}

/// No limit at all.
pub open spec fn no_limits() -> ParseLimits {
    ParseLimits {
        max_source_bytes: None,
        max_functions: None,
        max_blocks_per_function: None,
        max_instructions_per_function: None,
        max_type_depth: None,
        max_constant_depth: None,
    }
}

impl ParseLimits {
    /// Limits that allow everything.
    pub fn unlimited() -> (l: ParseLimits)
        ensures
            l == no_limits(),
    {
        ParseLimits {
            max_source_bytes: None,
            max_functions: None,
            max_blocks_per_function: None,
            max_instructions_per_function: None,
            max_type_depth: None,
            max_constant_depth: None,
        }
    }
}

/// The message for a limit value that is not a number.
pub open spec fn not_a_number_message(flag: Seq<char>) -> Seq<char> {
    flag + " requires a positive integer"@
}

/// The message for a zero limit.
pub open spec fn zero_limit_message(flag: Seq<char>) -> Seq<char> {
    flag + " must be greater than zero"@
}

/// The message for a flag whose value is missing.
pub open spec fn missing_value_message(flag: Seq<char>) -> Seq<char> {
    flag + " requires an argument"@
}

/// The outcome of reading `value` as the limit given with `flag`.
pub open spec fn limit_value(value: Seq<char>, flag: Seq<char>) -> Result<usize, Seq<char>> {
    if !is_usize_text(value) {
        Err(not_a_number_message(flag))
    } else if digits_value(unsigned_digits(value)) == 0 {
        Err(zero_limit_message(flag))
    } else {
        Ok(digits_value(unsigned_digits(value)) as usize)
    }
}

/// Read `value` as a positive limit for `flag`.
pub fn parse_limit_value(value: &str, flag: &str) -> (r: Result<usize, String>)
    ensures
        match (r, limit_value(value@, flag@)) {
            (Ok(v), Ok(w)) => v == w,
            (Err(m), Err(w)) => m@ == w,
            _ => false,
        },
{
    match parse_usize(value) {
        None => Err(concat_str(flag, " requires a positive integer")),
        Some(0) => Err(concat_str(flag, " must be greater than zero")),
        Some(v) => Ok(v),
    }
}

/// Read the argument after `flag`, if there is one, as a positive limit.
pub fn parse_limit_arg(next: Option<&str>, flag: &str) -> (r: Result<usize, String>)
    ensures
        match next {
            None => r matches Err(m) && m@ == missing_value_message(flag@),
            Some(v) => match (r, limit_value(v@, flag@)) {
                (Ok(x), Ok(w)) => x == w,
                (Err(m), Err(w)) => m@ == w,
                _ => false,
            },
        },
{
    match next {
        None => Err(concat_str(flag, " requires an argument")),
        Some(v) => parse_limit_value(v, flag),
    }
}

// ── argument handling ──────────────────────────────────────────────────────

/// The flag that sets limit `k` (0 to 5).
pub open spec fn limit_flag(k: int) -> Seq<char> {
    if k == 0 {
        "--max-input-bytes"@
    } else if k == 1 {
        "--max-functions"@
    } else if k == 2 {
        "--max-blocks-per-function"@
    } else if k == 3 {
        "--max-instructions-per-function"@
    } else if k == 4 {
        "--max-type-depth"@
    } else {
        "--max-constant-depth"@
    }
}

/// `limits` with limit `k` set to `v`.
pub open spec fn with_limit(limits: ParseLimits, k: int, v: usize) -> ParseLimits {
    if k == 0 {
        ParseLimits { max_source_bytes: Some(v), ..limits }
    } else if k == 1 {
        ParseLimits { max_functions: Some(v), ..limits }
    } else if k == 2 {
        ParseLimits { max_blocks_per_function: Some(v), ..limits }
    } else if k == 3 {
        ParseLimits { max_instructions_per_function: Some(v), ..limits }
    } else if k == 4 {
        ParseLimits { max_type_depth: Some(v), ..limits }
    } else {
        ParseLimits { max_constant_depth: Some(v), ..limits }
    }
}

/// The first limit whose flag is exactly `a`.
pub open spec fn exact_limit_flag(a: Seq<char>) -> Option<int> {
    if a == limit_flag(0) {
        Some(0)
    } else if a == limit_flag(1) {
        Some(1)
    } else if a == limit_flag(2) {
        Some(2)
    } else if a == limit_flag(3) {
        Some(3)
    } else if a == limit_flag(4) {
        Some(4)
    } else if a == limit_flag(5) {
        Some(5)
    } else {
        None
    }
}

/// The first limit whose flag followed by `=` begins `a`.
pub open spec fn prefixed_limit_flag(a: Seq<char>) -> Option<int> {
    if seq_starts_with(a, limit_flag(0).push('=')) {
        Some(0)
    } else if seq_starts_with(a, limit_flag(1).push('=')) {
        Some(1)
    } else if seq_starts_with(a, limit_flag(2).push('=')) {
        Some(2)
    } else if seq_starts_with(a, limit_flag(3).push('=')) {
        Some(3)
    } else if seq_starts_with(a, limit_flag(4).push('=')) {
        Some(4)
    } else if seq_starts_with(a, limit_flag(5).push('=')) {
        Some(5)
    } else {
        None
    }
}

/// What the arguments read so far have set.
pub struct CliState {
    pub input: Option<Seq<char>>,
    pub output: Option<Seq<char>>,
    pub opt_level: OptLevel,
    pub production_limits: bool,
    pub limits: ParseLimits,
    pub warnings: Seq<Seq<char>>,
}

/// The state before any argument: optimisation level 2, no limits.
pub open spec fn initial_state() -> CliState {
    CliState {
        input: None,
        output: None,
        opt_level: OptLevel::O2,
        production_limits: false,
        limits: no_limits(),
        warnings: Seq::empty(),
    }
}

/// The message for an unknown optimisation level.
pub open spec fn unknown_level_message(level: Seq<char>) -> Seq<char> {
    "unknown optimization level: "@ + level
}

/// Apply an optimisation level name.
pub open spec fn set_level(st: CliState, level: Seq<char>) -> (CliState, Option<Seq<char>>) {
    match opt_level_named(level) {
        Some(l) => (CliState { opt_level: l, ..st }, None),
        None => (st, Some(unknown_level_message(level))),
    }
}

/// Apply a value for limit `k`.
pub open spec fn set_limit(st: CliState, k: int, value: Seq<char>) -> (CliState, Option<Seq<char>>) {
    match limit_value(value, limit_flag(k)) {
        Ok(v) => (CliState { limits: with_limit(st.limits, k, v), ..st }, None),
        Err(m) => (st, Some(m)),
    }
}

/// The warning for an unsupported target.
pub open spec fn target_warning(target: Seq<char>) -> Seq<char> {
    "warning: only x86_64 target is supported; ignoring --target "@ + target
}

/// The warning for an unknown flag.
pub open spec fn unknown_flag_warning(flag: Seq<char>) -> Seq<char> {
    "warning: unknown flag "@ + flag + ", ignoring"@
}

/// Handle the argument at position `i`: how many arguments it takes, the new
/// state, and the error that stops the command, if any.
pub open spec fn cli_step(args: Seq<Seq<char>>, i: int, st: CliState) -> (int, CliState, Option<Seq<char>>) {
    let a = args[i];
    let has_next = i + 1 < args.len();
    let next = args[i + 1];
    if a == "-o"@ {
        if has_next {
            (2, CliState { output: Some(next), ..st }, None)
        } else {
            (1, st, Some("-o requires an argument"@))
        }
    } else if a == "-O"@ {
        if has_next {
            let (s2, e) = set_level(st, next);
            (2, s2, e)
        } else {
            (1, st, Some("-O requires an argument"@))
        }
    } else if a == "--target"@ {
        if has_next {
            if next == "x86_64"@ {
                (2, st, None)
            } else {
                (2, CliState { warnings: st.warnings.push(target_warning(next)), ..st }, None)
            }
        } else {
            (1, st, Some("--target requires an argument"@))
        }
    } else if a == "--production-parse-limits"@ {
        (1, CliState { production_limits: true, limits: no_limits(), ..st }, None)
    } else if exact_limit_flag(a) is Some {
        let k = exact_limit_flag(a)->0;
        if has_next {
            let (s2, e) = set_limit(st, k, next);
            (2, s2, e)
        } else {
            (1, st, Some(missing_value_message(limit_flag(k))))
        }
    } else if prefixed_limit_flag(a) is Some {
        let k = prefixed_limit_flag(a)->0;
        let (s2, e) = set_limit(st, k, a.subrange(limit_flag(k).len() + 1 as int, a.len() as int));
        (1, s2, e)
    } else if seq_starts_with(a, "-O"@) {
        let (s2, e) = set_level(st, a.subrange(2, a.len() as int));
        (1, s2, e)
    } else if seq_starts_with(a, "-"@) {
        (1, CliState { warnings: st.warnings.push(unknown_flag_warning(a)), ..st }, None)
    } else if st.input is Some {
        (1, st, Some("multiple input files not supported"@))
    } else {
        (1, CliState { input: Some(a), ..st }, None)
    }
}

/// Handle the arguments from position `i` on, stopping at the first error.
pub open spec fn cli_run(args: Seq<Seq<char>>, i: int, st: CliState) -> (CliState, Option<Seq<char>>)
    decreases args.len() - i,
{
    if i < 0 || i >= args.len() {
        (st, None)
    } else {
        let (n, s2, e) = cli_step(args, i, st);
        if e is Some || n < 1 {
            (s2, e)
        } else {
            cli_run(args, i + n, s2)
        }
    }
}

/// The message when no output path was given.
pub open spec fn missing_output_message() -> Seq<char> {
    "output path required (-o <output.o>)"@
}

/// The outcome of a command line: the final state, or the message that stops it.
pub open spec fn cli_outcome(args: Seq<Seq<char>>) -> Result<CliState, Seq<char>> {
    let (st, e) = cli_run(args, 0, initial_state());
    match e {
        Some(m) => Err(m),
        None => if st.input is None {
            Err(usage_text())
        } else if st.output is None {
            Err(missing_output_message())
        } else {
            Ok(st)
        },
    }
}

/// What a complete command line asks for.
pub struct CompileArgs {
    /// Path of the IR source.
    pub input: String,
    /// Path of the object file to write.
    pub output: String,
    /// Optimisation level.
    pub opt_level: OptLevel,
    /// Start from the conservative production limits rather than none.
    pub production_limits: bool,
    /// Limits set on the command line, over the starting ones.
    pub limits: ParseLimits,
}

/// The arguments' views.
pub open spec fn arg_views(args: Seq<String>) -> Seq<Seq<char>> {
    args.map_values(|a: String| a@)
}

/// The running state held while reading arguments.
struct ArgState {
    input: Option<String>,
    output: Option<String>,
    opt_level: OptLevel,
    production_limits: bool,
    limits: ParseLimits,
    warnings: Vec<String>,
}

impl ArgState {
    spec fn view_state(&self) -> CliState {
        CliState {
            input: match self.input {
                Some(s) => Some(s@),
                None => None,
            },
            output: match self.output {
                Some(s) => Some(s@),
                None => None,
            },
            opt_level: self.opt_level,
            production_limits: self.production_limits,
            limits: self.limits,
            warnings: self.warnings@.map_values(|w: String| w@),
        }
    }
}

fn apply_level(st: &mut ArgState, level: &str) -> (e: Option<String>)
    ensures
        ({
            let (s2, m) = set_level(old(st).view_state(), level@);
            final(st).view_state() == s2 && match (e, m) {
                (Some(x), Some(y)) => x@ == y,
                (None, None) => true,
                _ => false,
            }
        }),
{
    match OptLevel::parse(level) {
        Some(l) => {
            st.opt_level = l;
            None
        },
        None => Some(concat_str("unknown optimization level: ", level)),
    }
}

fn apply_limit(st: &mut ArgState, k: usize, value: &str) -> (e: Option<String>)
    requires
        k < 6,
    ensures
        ({
            let (s2, m) = set_limit(old(st).view_state(), k as int, value@);
            final(st).view_state() == s2 && match (e, m) {
                (Some(x), Some(y)) => x@ == y,
                (None, None) => true,
                _ => false,
            }
        }),
{
    let flag = limit_flag_text(k);
    match parse_limit_value(value, flag) {
        Ok(v) => {
            if k == 0 {
                st.limits.max_source_bytes = Some(v);
            } else if k == 1 {
                st.limits.max_functions = Some(v);
            } else if k == 2 {
                st.limits.max_blocks_per_function = Some(v);
            } else if k == 3 {
                st.limits.max_instructions_per_function = Some(v);
            } else if k == 4 {
                st.limits.max_type_depth = Some(v);
            } else {
                st.limits.max_constant_depth = Some(v);
            }
            None
        },
        Err(m) => Some(m),
    }
}

fn limit_flag_text(k: usize) -> (s: &'static str)
    requires
        k < 6,
    ensures
        s@ == limit_flag(k as int),
{
    if k == 0 {
        "--max-input-bytes"
    } else if k == 1 {
        "--max-functions"
    } else if k == 2 {
        "--max-blocks-per-function"
    } else if k == 3 {
        "--max-instructions-per-function"
    } else if k == 4 {
        "--max-type-depth"
    } else {
        "--max-constant-depth"
    }
}

fn find_exact_limit_flag(a: &str) -> (r: Option<usize>)
    ensures
        match r {
            Some(k) => k < 6 && exact_limit_flag(a@) == Some(k as int),
            None => exact_limit_flag(a@) is None,
        },
{
    let mut k: usize = 0;
    while k < 6
        invariant
            k <= 6,
            forall|j: int| 0 <= j < k ==> a@ != #[trigger] limit_flag(j),
        decreases 6 - k,
    {
        if str_equal(a, limit_flag_text(k)) {
            return Some(k);
        }
        k = k + 1;
    }
    assert(a@ != limit_flag(0) && a@ != limit_flag(1) && a@ != limit_flag(2) && a@ != limit_flag(3) && a@
        != limit_flag(4) && a@ != limit_flag(5));
    None
}

fn find_prefixed_limit_flag(a: &str) -> (r: Option<usize>)
    ensures
        match r {
            Some(k) => k < 6 && prefixed_limit_flag(a@) == Some(k as int),
            None => prefixed_limit_flag(a@) is None,
        },
{
    let mut k: usize = 0;
    while k < 6
        invariant
            k <= 6,
            forall|j: int| 0 <= j < k ==> !seq_starts_with(a@, #[trigger] limit_flag(j).push('=')),
        decreases 6 - k,
    {
        let p = concat_str(limit_flag_text(k), "=");
        proof {
            assert(p@ =~= limit_flag(k as int).push('=')) by {
                reveal_strlit("=");
            }
        }
        if starts_with(a, p.as_str()) {
            return Some(k);
        }
        k = k + 1;
    }
    assert(!seq_starts_with(a@, limit_flag(0).push('=')) && !seq_starts_with(a@, limit_flag(1).push('='))
        && !seq_starts_with(a@, limit_flag(2).push('=')) && !seq_starts_with(a@, limit_flag(3).push('='))
        && !seq_starts_with(a@, limit_flag(4).push('=')) && !seq_starts_with(a@, limit_flag(5).push('=')));
    None
}

fn push_warning(st: &mut ArgState, w: String)
    ensures
        final(st).view_state() == (CliState { warnings: old(st).view_state().warnings.push(w@), ..old(st).view_state() }),
{
    let ghost before = st.warnings@;
    st.warnings.push(w);
    assert(st.warnings@.map_values(|w: String| w@) =~= before.map_values(|w: String| w@).push(w@));
}

fn cli_step_exec(args: &[String], i: usize, st: &mut ArgState) -> (r: (usize, Option<String>))
    requires
        i < args@.len(),
    ensures
        ({
            let (n, s2, m) = cli_step(arg_views(args@), i as int, old(st).view_state());
            r.0 == n && final(st).view_state() == s2 && match (r.1, m) {
                (Some(x), Some(y)) => x@ == y,
                (None, None) => true,
                _ => false,
            }
        }),
{
    let ghost av = arg_views(args@);
    let a = args[i].as_str();
    assert(av[i as int] == a@);
    let has_next = i + 1 < args.len();
    proof {
        if has_next {
            assert(av[i + 1] == args@[i + 1]@);
        }
    }
    if str_equal(a, "-o") {
        if has_next {
            st.output = Some(args[i + 1].clone());
            (2, None)
        } else {
            (1, Some("-o requires an argument".to_string()))
        }
    } else if str_equal(a, "-O") {
        if has_next {
            let e = apply_level(st, args[i + 1].as_str());
            (2, e)
        } else {
            (1, Some("-O requires an argument".to_string()))
        }
    } else if str_equal(a, "--target") {
        if has_next {
            let target = args[i + 1].as_str();
            if !str_equal(target, "x86_64") {
                push_warning(st, concat_str("warning: only x86_64 target is supported; ignoring --target ", target));
            }
            (2, None)
        } else {
            (1, Some("--target requires an argument".to_string()))
        }
    } else if str_equal(a, "--production-parse-limits") {
        st.production_limits = true;
        st.limits = ParseLimits::unlimited();
        (1, None)
    } else {
        match find_exact_limit_flag(a) {
            Some(k) => {
                if has_next {
                    let e = apply_limit(st, k, args[i + 1].as_str());
                    (2, e)
                } else {
                    (1, Some(concat_str(limit_flag_text(k), " requires an argument")))
                }
            },
            None => match find_prefixed_limit_flag(a) {
                Some(k) => {
                    let flag = limit_flag_text(k);
                    let len = a.unicode_len();
                    proof {
                        assert(seq_starts_with(a@, limit_flag(k as int).push('=')));
                    }
                    let start = flag.unicode_len() + 1;
                    let value = a.substring_char(start, len);
                    let e = apply_limit(st, k, value);
                    (1, e)
                },
                None => {
                    if starts_with(a, "-O") {
                        let len = a.unicode_len();
                        proof {
                            reveal_strlit("-O");
                        }
                        let value = a.substring_char(2, len);
                        let e = apply_level(st, value);
                        (1, e)
                    } else if starts_with(a, "-") {
                        let w = concat_str("warning: unknown flag ", a);
                        let w2 = concat_str(w.as_str(), ", ignoring");
                        push_warning(st, w2);
                        (1, None)
                    } else if st.input.is_some() {
                        (1, Some("multiple input files not supported".to_string()))
                    } else {
                        st.input = Some(args[i].clone());
                        (1, None)
                    }
                },
            },
        }
    }
}

/// Decide what a command line asks for. Returns the warnings issued while
/// reading the arguments (all of them up to an error) and either the complete
/// request or the message of the first error: a missing or invalid value, a
/// second input file, no input (the usage line), or no output path.
pub fn parse_compile_args(args: &[String]) -> (r: (Vec<String>, Result<CompileArgs, String>))
    ensures
        r.0@.map_values(|w: String| w@) == cli_run(arg_views(args@), 0, initial_state()).0.warnings,
        match (r.1, cli_outcome(arg_views(args@))) {
            (Ok(c), Ok(st)) => st.input == Some(c.input@) && st.output == Some(c.output@) && st.opt_level
                == c.opt_level && st.production_limits == c.production_limits && st.limits == c.limits,
            (Err(m), Err(w)) => m@ == w,
            _ => false,
        },
{
    let ghost av = arg_views(args@);
    let mut st = ArgState {
        input: None,
        output: None,
        opt_level: OptLevel::O2,
        production_limits: false,
        limits: ParseLimits::unlimited(),
        warnings: Vec::new(),
    };
    assert(st.view_state() == initial_state()) by {
        assert(st.warnings@.map_values(|w: String| w@) =~= Seq::<Seq<char>>::empty());
    }
    let mut i: usize = 0;
    let mut error: Option<String> = None;
    while i < args.len()
        invariant_except_break
            i <= args@.len(),
            error is None,
            cli_run(av, 0, initial_state()) == cli_run(av, i as int, st.view_state()),
        invariant
            av == arg_views(args@),
        ensures
            ({
                let (fst, fe) = cli_run(av, 0, initial_state());
                fst == st.view_state() && match (error, fe) {
                    (Some(x), Some(y)) => x@ == y,
                    (None, None) => true,
                    _ => false,
                }
            }),
        decreases args@.len() - i,
    {
        let (n, e) = cli_step_exec(args, i, &mut st);
        if e.is_some() {
            error = e;
            break;
        }
        i = i + n;
    }
    let warnings = st.warnings;
    match error {
        Some(m) => (warnings, Err(m)),
        None => {
            match (st.input, st.output) {
                (None, _) => (warnings, Err(usage())),
                (Some(_), None) => (warnings, Err("output path required (-o <output.o>)".to_string())),
                (Some(input), Some(output)) => (
                    warnings,
                    Ok(
                        CompileArgs {
                            input,
                            output,
                            opt_level: st.opt_level,
                            production_limits: st.production_limits,
                            limits: st.limits,
                        },
                    ),
                ),
            }
        },
    }
}

} // verus!
