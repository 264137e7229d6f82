//! Canonical JSON wire encoding for job arguments.
//!
//! A job's `args` field is an ordered sequence of values; each value is a
//! scalar (null, boolean, 64-bit integer, string) or a flat object mapping
//! string keys to scalars.  The encoding is canonical: no whitespace, object
//! keys in the order given, strings escaped minimally (`"` and `\`).  The
//! parser accepts exactly what the specification-level parser accepts, and
//! a proved lemma shows it inverts the encoder.
use vstd::prelude::*;

verus! {

/// One scalar argument value.
#[derive(Debug, Clone)]
pub enum ArgVal {
    Null,
    Bool(bool),
    Int(i64),
    Str(String),
}

/// Specification-level mirror of `ArgVal`.
pub enum ArgValV {
    Null,
    Bool(bool),
    Int(int),
    Str(Seq<char>),
}

impl View for ArgVal {
    type V = ArgValV;

    open spec fn view(&self) -> ArgValV {
        match self {
            ArgVal::Null => ArgValV::Null,
            ArgVal::Bool(b) => ArgValV::Bool(*b),
            ArgVal::Int(n) => ArgValV::Int(*n as int),
            ArgVal::Str(s) => ArgValV::Str(s@),
        }
    }
}

/// One argument: a scalar, or a flat object of named scalars.
#[derive(Debug, Clone)]
pub enum Arg {
    Scalar(ArgVal),
    Obj(Vec<(String, ArgVal)>),
}

/// Specification-level mirror of `Arg`.
pub enum ArgV {
    Scalar(ArgValV),
    Obj(Seq<(Seq<char>, ArgValV)>),
}

impl View for Arg {
    type V = ArgV;

    open spec fn view(&self) -> ArgV {
        match self {
            Arg::Scalar(v) => ArgV::Scalar(v@),
            Arg::Obj(ps) => ArgV::Obj(
                Seq::new(ps@.len(), |i: int| (ps@[i].0@, ps@[i].1@)),
            ),
        }
    }
}

/// The view of a whole argument list.
pub open spec fn args_view(args: Seq<Arg>) -> Seq<ArgV> {
    Seq::new(args.len(), |i: int| args[i]@)
}

// ---------------------------------------------------------------------------
// Character helpers
// ---------------------------------------------------------------------------

pub open spec fn is_digit(c: char) -> bool {
    '0' <= c && c <= '9'
}

pub open spec fn digit_val(c: char) -> int {
    c as int - '0' as int
}

pub open spec fn digit_char(d: int) -> char {
    if d == 0 { '0' }
    else if d == 1 { '1' }
    else if d == 2 { '2' }
    else if d == 3 { '3' }
    else if d == 4 { '4' }
    else if d == 5 { '5' }
    else if d == 6 { '6' }
    else if d == 7 { '7' }
    else if d == 8 { '8' }
    else { '9' }
}

/// `t` occurs in `s` starting at position `i`.
pub open spec fn follows(s: Seq<char>, i: int, t: Seq<char>) -> bool {
    &&& 0 <= i
    &&& i + t.len() <= s.len()
    &&& forall|k: int| 0 <= k < t.len() ==> s[i + k] == t[k]
}

pub proof fn lemma_follows_concat(s: Seq<char>, i: int, a: Seq<char>, b: Seq<char>)
    requires
        follows(s, i, a + b),
    ensures
        follows(s, i, a),
        follows(s, i + a.len(), b),
{
    assert forall|k: int| 0 <= k < a.len() implies s[i + k] == a[k] by {
        assert((a + b)[k] == a[k]);
    }
    assert forall|k: int| 0 <= k < b.len() implies s[i + a.len() + k] == b[k] by {
        assert((a + b)[a.len() + k] == b[k]);
    }
}

// ---------------------------------------------------------------------------
// Specification-level encoders
// ---------------------------------------------------------------------------

/// Decimal digits of a non-negative integer, most significant first.
pub open spec fn enc_nat(n: int) -> Seq<char>
    recommends
        n >= 0,
    decreases n,
{
    if n < 10 {
        seq![digit_char(n)]
    } else {
        enc_nat(n / 10).push(digit_char(n % 10))
    }
}

/// Decimal form of a signed 64-bit value (magnitude taken exactly).
pub open spec fn enc_int(n: int) -> Seq<char> {
    if n < 0 {
        seq!['-'] + enc_nat(-n)
    } else {
        enc_nat(n)
    }
}

/// A string character, escaped if it is a quote or a backslash.
pub open spec fn esc_char(c: char) -> Seq<char> {
    if c == '"' || c == '\\' {
        seq!['\\', c]
    } else {
        seq![c]
    }
}

/// The body of an encoded string (no surrounding quotes).
pub open spec fn enc_chars(s: Seq<char>) -> Seq<char>
    decreases s.len(),
{
    if s.len() == 0 {
        Seq::empty()
    } else {
        esc_char(s[0]) + enc_chars(s.drop_first())
    }
}

/// A quoted, escaped string.
pub open spec fn enc_str(s: Seq<char>) -> Seq<char> {
    seq!['"'] + enc_chars(s) + seq!['"']
}

pub open spec fn enc_scalar(v: ArgValV) -> Seq<char> {
    match v {
        ArgValV::Null => seq!['n', 'u', 'l', 'l'],
        ArgValV::Bool(b) => if b { seq!['t', 'r', 'u', 'e'] } else { seq!['f', 'a', 'l', 's', 'e'] },
        ArgValV::Int(n) => enc_int(n),
        ArgValV::Str(s) => enc_str(s),
    }
}

pub open spec fn enc_pair(p: (Seq<char>, ArgValV)) -> Seq<char> {
    enc_str(p.0) + seq![':'] + enc_scalar(p.1)
}

/// Comma-joined object members.
pub open spec fn enc_pairs(ps: Seq<(Seq<char>, ArgValV)>) -> Seq<char>
    decreases ps.len(),
{
    if ps.len() == 0 {
        Seq::empty()
    } else if ps.len() == 1 {
        enc_pair(ps[0])
    } else {
        enc_pair(ps[0]) + seq![','] + enc_pairs(ps.drop_first())
    }
}

pub open spec fn enc_arg(a: ArgV) -> Seq<char> {
    match a {
        ArgV::Scalar(v) => enc_scalar(v),
        ArgV::Obj(ps) => seq!['{'] + enc_pairs(ps) + seq!['}'],
    }
}

/// Comma-joined array elements.
pub open spec fn enc_elems(args: Seq<ArgV>) -> Seq<char>
    decreases args.len(),
{
    if args.len() == 0 {
        Seq::empty()
    } else if args.len() == 1 {
        enc_arg(args[0])
    } else {
        enc_arg(args[0]) + seq![','] + enc_elems(args.drop_first())
    }
}

/// A full argument list: a JSON array.
pub open spec fn enc_args(args: Seq<ArgV>) -> Seq<char> {
    seq!['['] + enc_elems(args) + seq![']']
}

// ---------------------------------------------------------------------------
// Specification-level parsers
//
// Each returns the parsed value and the index just past what was consumed.
// The executable parser is proved to return exactly what these return.
// ---------------------------------------------------------------------------

/// Match the literal `t` at position `i`.
pub open spec fn p_lit(s: Seq<char>, i: int, t: Seq<char>) -> Option<int> {
    if follows(s, i, t) {
        Some(i + t.len())
    } else {
        None
    }
}

/// Consume decimal digits, accumulating onto `acc`; fails past `u64::MAX`.
pub open spec fn p_digits(s: Seq<char>, i: int, acc: int) -> Option<(int, int)>
    decreases s.len() - i,
    when 0 <= i <= s.len()
{
    if i < s.len() && is_digit(s[i]) {
        let a2 = acc * 10 + digit_val(s[i]);
        if a2 > u64::MAX as int {
            None
        } else {
            p_digits(s, i + 1, a2)
        }
    } else {
        Some((acc, i))
    }
}

/// A signed decimal integer that fits in `i64`.
pub open spec fn p_int(s: Seq<char>, i: int) -> Option<(int, int)>
    recommends 0 <= i <= s.len(),
{
    if i < s.len() && s[i] == '-' {
        if i + 1 < s.len() && is_digit(s[i + 1]) {
            match p_digits(s, i + 1, 0) {
                Some((m, j)) => if m <= 0x8000000000000000 {
                    Some((-m, j))
                } else {
                    None
                },
                None => None,
            }
        } else {
            None
        }
    } else if i < s.len() && is_digit(s[i]) {
        match p_digits(s, i, 0) {
            Some((m, j)) => if m <= i64::MAX as int {
                Some((m, j))
            } else {
                None
            },
            None => None,
        }
    } else {
        None
    }
}

/// The body of a quoted string, from just after the opening quote to just
/// past the closing quote.
pub open spec fn p_str_body(s: Seq<char>, i: int) -> Option<(Seq<char>, int)>
    decreases s.len() - i,
    when 0 <= i <= s.len()
{
    if i >= s.len() {
        None
    } else if s[i] == '"' {
        Some((Seq::empty(), i + 1))
    } else if s[i] == '\\' {
        if i + 1 < s.len() && (s[i + 1] == '"' || s[i + 1] == '\\') {
            match p_str_body(s, i + 2) {
                Some((w, j)) => Some((seq![s[i + 1]] + w, j)),
                None => None,
            }
        } else {
            None
        }
    } else {
        match p_str_body(s, i + 1) {
            Some((w, j)) => Some((seq![s[i]] + w, j)),
            None => None,
        }
    }
}

/// A quoted string.
pub open spec fn p_str(s: Seq<char>, i: int) -> Option<(Seq<char>, int)>
    recommends 0 <= i <= s.len(),
{
    if i < s.len() && s[i] == '"' {
        p_str_body(s, i + 1)
    } else {
        None
    }
}

/// A scalar value, discriminated by its first character.
pub open spec fn p_scalar(s: Seq<char>, i: int) -> Option<(ArgValV, int)>
    recommends 0 <= i <= s.len(),
{
    if i >= s.len() {
        None
    } else if s[i] == 'n' {
        match p_lit(s, i, seq!['n', 'u', 'l', 'l']) {
            Some(j) => Some((ArgValV::Null, j)),
            None => None,
        }
    } else if s[i] == 't' {
        match p_lit(s, i, seq!['t', 'r', 'u', 'e']) {
            Some(j) => Some((ArgValV::Bool(true), j)),
            None => None,
        }
    } else if s[i] == 'f' {
        match p_lit(s, i, seq!['f', 'a', 'l', 's', 'e']) {
            Some(j) => Some((ArgValV::Bool(false), j)),
            None => None,
        }
    } else if s[i] == '"' {
        match p_str(s, i) {
            Some((w, j)) => Some((ArgValV::Str(w), j)),
            None => None,
        }
    } else {
        match p_int(s, i) {
            Some((n, j)) => Some((ArgValV::Int(n), j)),
            None => None,
        }
    }
}

/// One `"key":scalar` object member.
pub open spec fn p_pair(s: Seq<char>, i: int) -> Option<((Seq<char>, ArgValV), int)>
    recommends 0 <= i <= s.len(),
{
    match p_str(s, i) {
        Some((k, j)) => {
            if j < s.len() && s[j] == ':' {
                match p_scalar(s, j + 1) {
                    Some((v, j2)) => Some(((k, v), j2)),
                    None => None,
                }
            } else {
                None
            }
        },
        None => None,
    }
}

/// One or more comma-separated object members.
pub open spec fn p_pairs(s: Seq<char>, i: int) -> Option<(Seq<(Seq<char>, ArgValV)>, int)>
    decreases s.len() - i,
    when 0 <= i <= s.len()
{
    match p_pair(s, i) {
        Some((p, j)) => {
            if i <= j < s.len() && s[j] == ',' {
                match p_pairs(s, j + 1) {
                    Some((ps, j2)) => Some((seq![p] + ps, j2)),
                    None => None,
                }
            } else {
                Some((seq![p], j))
            }
        },
        None => None,
    }
}

/// One array element: a scalar or a flat object.
pub open spec fn p_arg(s: Seq<char>, i: int) -> Option<(ArgV, int)>
    recommends 0 <= i <= s.len(),
{
    if i < s.len() && s[i] == '{' {
        if i + 1 < s.len() && s[i + 1] == '}' {
            Some((ArgV::Obj(Seq::empty()), i + 2))
        } else {
            match p_pairs(s, i + 1) {
                Some((ps, j)) => {
                    if j < s.len() && s[j] == '}' {
                        Some((ArgV::Obj(ps), j + 1))
                    } else {
                        None
                    }
                },
                None => None,
            }
        }
    } else {
        match p_scalar(s, i) {
            Some((v, j)) => Some((ArgV::Scalar(v), j)),
            None => None,
        }
    }
}

/// One or more comma-separated array elements.
pub open spec fn p_elems(s: Seq<char>, i: int) -> Option<(Seq<ArgV>, int)>
    decreases s.len() - i,
    when 0 <= i <= s.len()
{
    match p_arg(s, i) {
        Some((a, j)) => {
            if i <= j < s.len() && s[j] == ',' {
                match p_elems(s, j + 1) {
                    Some((rest, j2)) => Some((seq![a] + rest, j2)),
                    None => None,
                }
            } else {
                Some((seq![a], j))
            }
        },
        None => None,
    }
}

/// A whole argument list: `[` elements `]`.
pub open spec fn p_args(s: Seq<char>, i: int) -> Option<(Seq<ArgV>, int)>
    recommends 0 <= i <= s.len(),
{
    if i < s.len() && s[i] == '[' {
        if i + 1 < s.len() && s[i + 1] == ']' {
            Some((Seq::empty(), i + 2))
        } else {
            match p_elems(s, i + 1) {
                Some((args, j)) => {
                    if j < s.len() && s[j] == ']' {
                        Some((args, j + 1))
                    } else {
                        None
                    }
                },
                None => None,
            }
        }
    } else {
        None
    }
}

// ---------------------------------------------------------------------------
// Executable encoder
// ---------------------------------------------------------------------------

/// Relies on `String`'s `FromIterator<char>` impl: the collected string
/// holds exactly the given characters, in order.
#[verifier::external_body]
pub fn string_from_chars(v: Vec<char>) -> (r: String)
    ensures
        r@ == v@,
{
    v.into_iter().collect()
}


/// Append the characters of `t` unchanged.
#[verifier::loop_isolation(false)]
pub fn push_lit(out: &mut Vec<char>, t: &str)
    ensures
        final(out)@ == old(out)@ + t@,
{
    let n = t.unicode_len();
    let mut k: usize = 0;
    while k < n
        invariant
            k <= n,
            out@ == old(out)@ + t@.take(k as int),
        decreases n - k,
    {
        out.push(t.get_char(k));
        proof {
            assert(out@ =~= old(out)@ + t@.take(k as int + 1));
        }
        k = k + 1;
    }
    proof {
        assert(t@.take(n as int) =~= t@);
    }
}

/// The characters of `s`, as a vector.
#[verifier::loop_isolation(false)]
pub fn str_to_chars(s: &str) -> (r: Vec<char>)
    ensures
        r@ == s@,
{
    let n = s.unicode_len();
    let mut r: Vec<char> = Vec::new();
    let mut k: usize = 0;
    while k < n
        invariant
            k <= n,
            r@ == s@.take(k as int),
        decreases n - k,
    {
        r.push(s.get_char(k));
        proof {
            assert(r@ =~= s@.take(k as int + 1));
        }
        k = k + 1;
    }
    proof {
        assert(s@.take(n as int) =~= s@);
    }
    r
}

pub fn digit_to_char(d: u64) -> (c: char)
    requires
        d < 10,
    ensures
        c == digit_char(d as int),
{
    if d == 0 { '0' }
    else if d == 1 { '1' }
    else if d == 2 { '2' }
    else if d == 3 { '3' }
    else if d == 4 { '4' }
    else if d == 5 { '5' }
    else if d == 6 { '6' }
    else if d == 7 { '7' }
    else if d == 8 { '8' }
    else { '9' }
}

pub fn push_nat(out: &mut Vec<char>, n: u64)
    ensures
        final(out)@ == old(out)@ + enc_nat(n as int),
    decreases n,
{
    if n < 10 {
        out.push(digit_to_char(n));
        assert(out@ =~= old(out)@ + enc_nat(n as int));
    } else {
        push_nat(out, n / 10);
        out.push(digit_to_char(n % 10));
        assert(out@ =~= old(out)@ + enc_nat(n as int));
    }
}

pub fn push_int(out: &mut Vec<char>, n: i64)
    ensures
        final(out)@ == old(out)@ + enc_int(n as int),
{
    if n < 0 {
        out.push('-');
        let mag: u64 = if n == i64::MIN {
            9223372036854775808u64
        } else {
            (-n) as u64
        };
        assert(mag as int == -(n as int));
        push_nat(out, mag);
        assert(out@ =~= old(out)@ + enc_int(n as int));
    } else {
        push_nat(out, n as u64);
    }
}

/// Escaped body characters of `s`, from index `from` on.
pub fn push_chars(out: &mut Vec<char>, s: &str, from: usize)
    requires
        from <= s@.len(),
    ensures
        final(out)@ == old(out)@ + enc_chars(s@.skip(from as int)),
    decreases s@.len() - from,
{
    if from < s.unicode_len() {
        let c = s.get_char(from);
        if c == '"' || c == '\\' {
            out.push('\\');
            out.push(c);
        } else {
            out.push(c);
        }
        push_chars(out, s, from + 1);
        proof {
            let t = s@.skip(from as int);
            assert(t[0] == s@[from as int]);
            assert(t.drop_first() =~= s@.skip(from as int + 1));
            assert(out@ =~= old(out)@ + enc_chars(t));
        }
    } else {
        assert(s@.skip(from as int) =~= Seq::<char>::empty());
    }
}

/// A quoted, escaped string.
pub fn push_str_enc(out: &mut Vec<char>, s: &String)
    ensures
        final(out)@ == old(out)@ + enc_str(s@),
{
    out.push('"');
    push_chars(out, s.as_str(), 0);
    out.push('"');
    proof {
        assert(s@.skip(0) =~= s@);
        assert(out@ =~= old(out)@ + enc_str(s@));
    }
}

pub fn push_scalar(out: &mut Vec<char>, v: &ArgVal)
    ensures
        final(out)@ == old(out)@ + enc_scalar(v@),
{
    match v {
        ArgVal::Null => {
            out.push('n');
            out.push('u');
            out.push('l');
            out.push('l');
            assert(out@ =~= old(out)@ + enc_scalar(v@));
        },
        ArgVal::Bool(b) => {
            if *b {
                out.push('t');
                out.push('r');
                out.push('u');
                out.push('e');
            } else {
                out.push('f');
                out.push('a');
                out.push('l');
                out.push('s');
                out.push('e');
            }
            assert(out@ =~= old(out)@ + enc_scalar(v@));
        },
        ArgVal::Int(n) => {
            push_int(out, *n);
        },
        ArgVal::Str(s) => {
            push_str_enc(out, s);
        },
    }
}

/// The view of a flat object's member list.
pub open spec fn pairs_view(ps: Seq<(String, ArgVal)>) -> Seq<(Seq<char>, ArgValV)> {
    Seq::new(ps.len(), |i: int| (ps[i].0@, ps[i].1@))
}

pub fn push_pairs(out: &mut Vec<char>, ps: &Vec<(String, ArgVal)>, from: usize)
    requires
        from <= ps@.len(),
    ensures
        final(out)@ == old(out)@ + enc_pairs(pairs_view(ps@).skip(from as int)),
    decreases ps@.len() - from,
{
    if from < ps.len() {
        push_str_enc(out, &ps[from].0);
        out.push(':');
        push_scalar(out, &ps[from].1);
        if from + 1 < ps.len() {
            out.push(',');
            push_pairs(out, ps, from + 1);
        }
        proof {
            let t = pairs_view(ps@).skip(from as int);
            assert(t[0] == (ps@[from as int].0@, ps@[from as int].1@));
            assert(t.drop_first() =~= pairs_view(ps@).skip(from as int + 1));
            assert(out@ =~= old(out)@ + enc_pairs(t));
        }
    } else {
        assert(pairs_view(ps@).skip(from as int) =~= Seq::<(Seq<char>, ArgValV)>::empty());
    }
}

pub fn push_arg(out: &mut Vec<char>, a: &Arg)
    ensures
        final(out)@ == old(out)@ + enc_arg(a@),
{
    match a {
        Arg::Scalar(v) => {
            push_scalar(out, v);
        },
        Arg::Obj(ps) => {
            out.push('{');
            push_pairs(out, ps, 0);
            out.push('}');
            proof {
                assert(pairs_view(ps@).skip(0) =~= pairs_view(ps@));
                assert(a@ == ArgV::Obj(pairs_view(ps@)));
                assert(out@ =~= old(out)@ + enc_arg(a@));
            }
        },
    }
}

pub fn push_elems(out: &mut Vec<char>, args: &Vec<Arg>, from: usize)
    requires
        from <= args@.len(),
    ensures
        final(out)@ == old(out)@ + enc_elems(args_view(args@).skip(from as int)),
    decreases args@.len() - from,
{
    if from < args.len() {
        push_arg(out, &args[from]);
        if from + 1 < args.len() {
            out.push(',');
            push_elems(out, args, from + 1);
        }
        proof {
            let t = args_view(args@).skip(from as int);
            assert(t[0] == args@[from as int]@);
            assert(t.drop_first() =~= args_view(args@).skip(from as int + 1));
            assert(out@ =~= old(out)@ + enc_elems(t));
        }
    } else {
        assert(args_view(args@).skip(from as int) =~= Seq::<ArgV>::empty());
    }
}

/// Encode a whole argument list as a JSON array.
pub fn push_args(out: &mut Vec<char>, args: &Vec<Arg>)
    ensures
        final(out)@ == old(out)@ + enc_args(args_view(args@)),
{
    out.push('[');
    push_elems(out, args, 0);
    out.push(']');
    proof {
        assert(args_view(args@).skip(0) =~= args_view(args@));
        assert(out@ =~= old(out)@ + enc_args(args_view(args@)));
    }
}


// ---------------------------------------------------------------------------
// Executable parser
// ---------------------------------------------------------------------------

pub fn is_digit_x(c: char) -> (r: bool)
    ensures
        r == is_digit(c),
{
    let u = c as u32;
    48 <= u && u <= 57
}

/// Match the literal `t` at position `i`.
pub fn x_lit(s: &Vec<char>, i: usize, t: &str) -> (r: Option<usize>)
    requires
        i <= s@.len(),
    ensures
        (match (r, p_lit(s@, i as int, t@)) {
            (Some(j), Some(sj)) => j as int == sj && j <= s@.len(),
            (None, None) => true,
            _ => false,
        }),
{
    let n = t.unicode_len();
    let sl: usize = s.len();
    if sl - i < n {
        assert(!follows(s@, i as int, t@));
        return None;
    }
    let mut k: usize = 0;
    while k < n
        invariant
            k <= n,
            i + n <= sl,
            sl == s@.len(),
            n == t@.len(),
            forall|m: int| 0 <= m < k ==> s@[i + m] == t@[m],
        decreases n - k,
    {
        if s[i + k] != t.get_char(k) {
            assert(!follows(s@, i as int, t@));
            return None;
        }
        k = k + 1;
    }
    assert(follows(s@, i as int, t@));
    Some(i + n)
}

pub fn x_digits(s: &Vec<char>, i: usize, acc: u64) -> (r: Option<(u64, usize)>)
    requires
        i <= s@.len(),
    ensures
        (match (r, p_digits(s@, i as int, acc as int)) {
            (Some((v, j)), Some((sv, sj))) => v as int == sv && j as int == sj && j <= s@.len(),
            (None, None) => true,
            _ => false,
        }),
    decreases s@.len() - i,
{
    if i < s.len() && is_digit_x(s[i]) {
        let d = (s[i] as u32 - 48) as u64;
        assert(d as int == digit_val(s@[i as int]));
        match acc.checked_mul(10) {
            Some(m) => {
                match m.checked_add(d) {
                    Some(a2) => x_digits(s, i + 1, a2),
                    None => None,
                }
            },
            None => {
                assert(acc * 10 + d > u64::MAX as int);
                None
            },
        }
    } else {
        Some((acc, i))
    }
}

pub fn x_int(s: &Vec<char>, i: usize) -> (r: Option<(i64, usize)>)
    requires
        i <= s@.len(),
    ensures
        (match (r, p_int(s@, i as int)) {
            (Some((v, j)), Some((sv, sj))) => v as int == sv && j as int == sj && j <= s@.len(),
            (None, None) => true,
            _ => false,
        }),
{
    if i < s.len() && s[i] == '-' {
        if i + 1 < s.len() && is_digit_x(s[i + 1]) {
            match x_digits(s, i + 1, 0) {
                Some((m, j)) => {
                    if m <= 9223372036854775808u64 {
                        let v: i64 = if m == 9223372036854775808u64 {
                            i64::MIN
                        } else {
                            -(m as i64)
                        };
                        assert(v as int == -(m as int));
                        Some((v, j))
                    } else {
                        None
                    }
                },
                None => None,
            }
        } else {
            None
        }
    } else if i < s.len() && is_digit_x(s[i]) {
        match x_digits(s, i, 0) {
            Some((m, j)) => {
                if m <= 9223372036854775807u64 {
                    Some((m as i64, j))
                } else {
                    None
                }
            },
            None => None,
        }
    } else {
        None
    }
}

pub fn x_str_body(s: &Vec<char>, i: usize) -> (r: Option<(Vec<char>, usize)>)
    requires
        i <= s@.len(),
    ensures
        (match (r, p_str_body(s@, i as int)) {
            (Some((w, j)), Some((sw, sj))) => w@ == sw && j as int == sj && j <= s@.len(),
            (None, None) => true,
            _ => false,
        }),
    decreases s@.len() - i,
{
    if i >= s.len() {
        None
    } else if s[i] == '"' {
        let w: Vec<char> = Vec::new();
        assert(w@ =~= Seq::<char>::empty());
        Some((w, i + 1))
    } else if s[i] == '\\' {
        if i + 1 < s.len() && (s[i + 1] == '"' || s[i + 1] == '\\') {
            let c = s[i + 1];
            match x_str_body(s, i + 2) {
                Some((mut w, j)) => {
                    let ghost w0 = w@;
                    w.insert(0, c);
                    assert(w@ =~= seq![s@[i as int + 1]] + w0);
                    Some((w, j))
                },
                None => None,
            }
        } else {
            None
        }
    } else {
        let c = s[i];
        match x_str_body(s, i + 1) {
            Some((mut w, j)) => {
                let ghost w0 = w@;
                w.insert(0, c);
                assert(w@ =~= seq![s@[i as int]] + w0);
                Some((w, j))
            },
            None => None,
        }
    }
}

pub fn x_str(s: &Vec<char>, i: usize) -> (r: Option<(String, usize)>)
    requires
        i <= s@.len(),
    ensures
        (match (r, p_str(s@, i as int)) {
            (Some((w, j)), Some((sw, sj))) => w@ == sw && j as int == sj && j <= s@.len(),
            (None, None) => true,
            _ => false,
        }),
{
    if i < s.len() && s[i] == '"' {
        match x_str_body(s, i + 1) {
            Some((w, j)) => Some((string_from_chars(w), j)),
            None => None,
        }
    } else {
        None
    }
}

pub fn x_scalar(s: &Vec<char>, i: usize) -> (r: Option<(ArgVal, usize)>)
    requires
        i <= s@.len(),
    ensures
        (match (r, p_scalar(s@, i as int)) {
            (Some((v, j)), Some((sv, sj))) => v@ == sv && j as int == sj && j <= s@.len(),
            (None, None) => true,
            _ => false,
        }),
{
    proof {
        reveal_strlit("null");
        reveal_strlit("true");
        reveal_strlit("false");
        assert("null"@ =~= seq!['n', 'u', 'l', 'l']);
        assert("true"@ =~= seq!['t', 'r', 'u', 'e']);
        assert("false"@ =~= seq!['f', 'a', 'l', 's', 'e']);
    }
    if i >= s.len() {
        None
    } else if s[i] == 'n' {
        match x_lit(s, i, "null") {
            Some(j) => Some((ArgVal::Null, j)),
            None => None,
        }
    } else if s[i] == 't' {
        match x_lit(s, i, "true") {
            Some(j) => Some((ArgVal::Bool(true), j)),
            None => None,
        }
    } else if s[i] == 'f' {
        match x_lit(s, i, "false") {
            Some(j) => Some((ArgVal::Bool(false), j)),
            None => None,
        }
    } else if s[i] == '"' {
        match x_str(s, i) {
            Some((w, j)) => Some((ArgVal::Str(w), j)),
            None => None,
        }
    } else {
        match x_int(s, i) {
            Some((n, j)) => Some((ArgVal::Int(n), j)),
            None => None,
        }
    }
}

pub fn x_pair(s: &Vec<char>, i: usize) -> (r: Option<((String, ArgVal), usize)>)
    requires
        i <= s@.len(),
    ensures
        (match (r, p_pair(s@, i as int)) {
            (Some(((k, v), j)), Some(((sk, sv), sj))) => k@ == sk && v@ == sv && j as int == sj
                && j <= s@.len(),
            (None, None) => true,
            _ => false,
        }),
{
    match x_str(s, i) {
        Some((k, j)) => {
            if j < s.len() && s[j] == ':' {
                match x_scalar(s, j + 1) {
                    Some((v, j2)) => Some(((k, v), j2)),
                    None => None,
                }
            } else {
                None
            }
        },
        None => None,
    }
}

pub fn x_pairs(s: &Vec<char>, i: usize) -> (r: Option<(Vec<(String, ArgVal)>, usize)>)
    requires
        i <= s@.len(),
    ensures
        (match (r, p_pairs(s@, i as int)) {
            (Some((ps, j)), Some((sps, sj))) => pairs_view(ps@) == sps && j as int == sj && j
                <= s@.len(),
            (None, None) => true,
            _ => false,
        }),
    decreases s@.len() - i,
{
    match x_pair(s, i) {
        Some((p, j)) => {
            if i <= j && j < s.len() && s[j] == ',' {
                match x_pairs(s, j + 1) {
                    Some((mut ps, j2)) => {
                        let ghost ps0 = ps@;
                        let ghost pv = (p.0@, p.1@);
                        ps.insert(0, p);
                        assert(pairs_view(ps@) =~= seq![pv] + pairs_view(ps0));
                        Some((ps, j2))
                    },
                    None => None,
                }
            } else {
                let ghost pv = (p.0@, p.1@);
                let mut ps: Vec<(String, ArgVal)> = Vec::new();
                ps.push(p);
                assert(pairs_view(ps@) =~= seq![pv]);
                Some((ps, j))
            }
        },
        None => None,
    }
}

pub fn x_arg(s: &Vec<char>, i: usize) -> (r: Option<(Arg, usize)>)
    requires
        i <= s@.len(),
    ensures
        (match (r, p_arg(s@, i as int)) {
            (Some((a, j)), Some((sa, sj))) => a@ == sa && j as int == sj && j <= s@.len(),
            (None, None) => true,
            _ => false,
        }),
{
    if i < s.len() && s[i] == '{' {
        if i + 1 < s.len() && s[i + 1] == '}' {
            let ps: Vec<(String, ArgVal)> = Vec::new();
            let a = Arg::Obj(ps);
            assert(a@ == ArgV::Obj(Seq::<(Seq<char>, ArgValV)>::empty())) by {
                assert(pairs_view(Seq::<(String, ArgVal)>::empty())
                    =~= Seq::<(Seq<char>, ArgValV)>::empty());
            }
            Some((a, i + 2))
        } else {
            match x_pairs(s, i + 1) {
                Some((ps, j)) => {
                    if j < s.len() && s[j] == '}' {
                        let a = Arg::Obj(ps);
                        Some((a, j + 1))
                    } else {
                        None
                    }
                },
                None => None,
            }
        }
    } else {
        match x_scalar(s, i) {
            Some((v, j)) => Some((Arg::Scalar(v), j)),
            None => None,
        }
    }
}

pub fn x_elems(s: &Vec<char>, i: usize) -> (r: Option<(Vec<Arg>, usize)>)
    requires
        i <= s@.len(),
    ensures
        (match (r, p_elems(s@, i as int)) {
            (Some((args, j)), Some((sargs, sj))) => args_view(args@) == sargs && j as int == sj
                && j <= s@.len(),
            (None, None) => true,
            _ => false,
        }),
    decreases s@.len() - i,
{
    match x_arg(s, i) {
        Some((a, j)) => {
            if i <= j && j < s.len() && s[j] == ',' {
                match x_elems(s, j + 1) {
                    Some((mut args, j2)) => {
                        let ghost args0 = args@;
                        let ghost av = a@;
                        args.insert(0, a);
                        assert(args_view(args@) =~= seq![av] + args_view(args0));
                        Some((args, j2))
                    },
                    None => None,
                }
            } else {
                let ghost av = a@;
                let mut args: Vec<Arg> = Vec::new();
                args.push(a);
                assert(args_view(args@) =~= seq![av]);
                Some((args, j))
            }
        },
        None => None,
    }
}

/// Parse a whole argument list at position `i`.
pub fn x_args(s: &Vec<char>, i: usize) -> (r: Option<(Vec<Arg>, usize)>)
    requires
        i <= s@.len(),
    ensures
        (match (r, p_args(s@, i as int)) {
            (Some((args, j)), Some((sargs, sj))) => args_view(args@) == sargs && j as int == sj
                && j <= s@.len(),
            (None, None) => true,
            _ => false,
        }),
{
    if i < s.len() && s[i] == '[' {
        if i + 1 < s.len() && s[i + 1] == ']' {
            let args: Vec<Arg> = Vec::new();
            assert(args_view(args@) =~= Seq::<ArgV>::empty());
            Some((args, i + 2))
        } else {
            match x_elems(s, i + 1) {
                Some((args, j)) => {
                    if j < s.len() && s[j] == ']' {
                        Some((args, j + 1))
                    } else {
                        None
                    }
                },
                None => None,
            }
        }
    } else {
        None
    }
}


// ---------------------------------------------------------------------------
// The parser inverts the encoder
// ---------------------------------------------------------------------------

/// Values an encoded scalar can take: integers must fit the wire's 64-bit
/// signed range.
pub open spec fn scalar_wf(v: ArgValV) -> bool {
    match v {
        ArgValV::Int(n) => i64::MIN <= n <= i64::MAX,
        _ => true,
    }
}

pub open spec fn arg_wf(a: ArgV) -> bool {
    match a {
        ArgV::Scalar(v) => scalar_wf(v),
        ArgV::Obj(ps) => forall|k: int| 0 <= k < ps.len() ==> scalar_wf(#[trigger] ps[k].1),
    }
}

pub open spec fn args_wf(args: Seq<ArgV>) -> bool {
    forall|k: int| 0 <= k < args.len() ==> arg_wf(#[trigger] args[k])
}

pub open spec fn pow10(k: nat) -> int
    decreases k,
{
    if k == 0 {
        1
    } else {
        10 * pow10((k - 1) as nat)
    }
}

pub open spec fn all_digits(t: Seq<char>) -> bool {
    forall|k: int| 0 <= k < t.len() ==> is_digit(#[trigger] t[k])
}

/// The value of a digit string, most significant first.
pub open spec fn dval(t: Seq<char>) -> int
    decreases t.len(),
{
    if t.len() == 0 {
        0
    } else {
        digit_val(t[0]) * pow10((t.len() - 1) as nat) + dval(t.drop_first())
    }
}

proof fn lemma_pow10_pos(k: nat)
    ensures
        pow10(k) >= 1,
    decreases k,
{
    if k > 0 {
        lemma_pow10_pos((k - 1) as nat);
    }
}

proof fn lemma_dval_nonneg(t: Seq<char>)
    requires
        all_digits(t),
    ensures
        dval(t) >= 0,
    decreases t.len(),
{
    if t.len() > 0 {
        assert forall|k: int| 0 <= k < t.drop_first().len() implies is_digit(
            #[trigger] t.drop_first()[k],
        ) by {
            assert(t.drop_first()[k] == t.subrange(1, t.len() as int)[k]);
        }
        lemma_dval_nonneg(t.drop_first());
        lemma_pow10_pos((t.len() - 1) as nat);
        assert(digit_val(t[0]) >= 0);
        assert(digit_val(t[0]) * pow10((t.len() - 1) as nat) >= 0) by (nonlinear_arith)
            requires
                digit_val(t[0]) >= 0,
                pow10((t.len() - 1) as nat) >= 1,
        ;
    }
}

proof fn lemma_dval_push(t: Seq<char>, d: char)
    ensures
        dval(t.push(d)) == dval(t) * 10 + digit_val(d),
    decreases t.len(),
{
    let tp = t.push(d);
    if t.len() == 0 {
        assert(tp.len() == 1);
        assert(tp[0] == d);
        assert(tp.drop_first() =~= Seq::<char>::empty());
        assert(dval(tp) == digit_val(d) * pow10(0) + dval(tp.drop_first()));
        assert(pow10(0) == 1);
        assert(dval(Seq::<char>::empty()) == 0);
        assert(dval(t) == 0);
    } else {
        assert(tp[0] == t[0]);
        assert(tp.drop_first() =~= t.drop_first().push(d));
        lemma_dval_push(t.drop_first(), d);
        let k = (t.len() - 1) as nat;
        assert(pow10(k + 1) == 10 * pow10(k));
        assert(digit_val(tp[0]) * pow10(k + 1) == (digit_val(t[0]) * pow10(k)) * 10)
            by (nonlinear_arith)
            requires
                tp[0] == t[0],
                pow10(k + 1) == 10 * pow10(k),
        ;
        assert((tp.len() - 1) as nat == k + 1);
        assert(dval(tp) == digit_val(tp[0]) * pow10(k + 1) + dval(tp.drop_first()));
        assert(dval(tp.drop_first()) == dval(t.drop_first()) * 10 + digit_val(d));
        assert(dval(tp) == digit_val(t[0]) * pow10(k + 1) + (dval(t.drop_first()) * 10
            + digit_val(d)));
        assert(dval(t) == digit_val(t[0]) * pow10(k) + dval(t.drop_first()));
        assert(dval(t) * 10 == (digit_val(t[0]) * pow10(k)) * 10 + dval(t.drop_first()) * 10)
            by (nonlinear_arith)
            requires
                dval(t) == digit_val(t[0]) * pow10(k) + dval(t.drop_first()),
        ;
    }
}


/// The decimal form of a non-negative integer is all digits and reads back
/// to the same value.
pub proof fn lemma_enc_nat_digits_pub(n: int)
    requires
        n >= 0,
    ensures
        all_digits(enc_nat(n)),
        enc_nat(n).len() >= 1,
        dval(enc_nat(n)) == n,
{
    lemma_enc_nat_digits(n);
}

/// Digit scanning, for callers outside this module; see the scan lemma.
pub proof fn lemma_p_digits_scan_pub(s: Seq<char>, i: int, t: Seq<char>, acc: int)
    requires
        follows(s, i, t),
        all_digits(t),
        0 <= acc,
        acc * pow10(t.len() as nat) + dval(t) <= u64::MAX as int,
        i + t.len() == s.len() || !is_digit(s[i + t.len()]),
    ensures
        p_digits(s, i, acc) == Some((acc * pow10(t.len() as nat) + dval(t), i + t.len())),
{
    lemma_p_digits_scan(s, i, t, acc);
}

proof fn lemma_enc_nat_digits(n: int)
    requires
        n >= 0,
    ensures
        all_digits(enc_nat(n)),
        enc_nat(n).len() >= 1,
        dval(enc_nat(n)) == n,
    decreases n,
{
    if n < 10 {
        assert(enc_nat(n) =~= seq![digit_char(n)]);
        assert(is_digit(digit_char(n)));
        assert(digit_val(digit_char(n)) == n);
        assert(enc_nat(n).drop_first() =~= Seq::<char>::empty());
        assert(dval(enc_nat(n)) == digit_val(enc_nat(n)[0]) * pow10(
            (enc_nat(n).len() - 1) as nat,
        ) + dval(enc_nat(n).drop_first()));
        assert(enc_nat(n)[0] == digit_char(n));
        assert(pow10(0) == 1);
        assert(dval(Seq::<char>::empty()) == 0);
    } else {
        lemma_enc_nat_digits(n / 10);
        let a = enc_nat(n / 10);
        let d = digit_char(n % 10);
        assert(is_digit(d));
        assert forall|k: int| 0 <= k < a.push(d).len() implies is_digit(
            #[trigger] a.push(d)[k],
        ) by {
            if k < a.len() {
                assert(a.push(d)[k] == a[k]);
            }
        }
        lemma_dval_push(a, d);
        assert(digit_val(d) == n % 10);
        assert(dval(enc_nat(n)) == (n / 10) * 10 + n % 10);
        assert((n / 10) * 10 + n % 10 == n) by (nonlinear_arith)
            requires
                n >= 0,
        ;
    }
}

/// Scanning a digit region accumulates its value exactly.
proof fn lemma_p_digits_scan(s: Seq<char>, i: int, t: Seq<char>, acc: int)
    requires
        follows(s, i, t),
        all_digits(t),
        0 <= acc,
        acc * pow10(t.len() as nat) + dval(t) <= u64::MAX as int,
        i + t.len() == s.len() || !is_digit(s[i + t.len()]),
    ensures
        p_digits(s, i, acc) == Some((acc * pow10(t.len() as nat) + dval(t), i + t.len())),
    decreases t.len(),
{
    lemma_dval_nonneg(t);
    if t.len() == 0 {
        assert(p_digits(s, i, acc) == Some((acc, i)));
    } else {
        let d0 = digit_val(t[0]);
        assert(s[i] == t[0]);
        assert(is_digit(s[i]));
        let a2 = acc * 10 + d0;
        let tr = t.drop_first();
        assert forall|k: int| 0 <= k < tr.len() implies is_digit(#[trigger] tr[k]) by {
            assert(tr[k] == t.subrange(1, t.len() as int)[k]);
        }
        lemma_dval_nonneg(tr);
        lemma_pow10_pos(tr.len() as nat);
        assert(a2 * pow10(tr.len() as nat) + dval(tr) == acc * pow10(t.len() as nat) + dval(t))
            by (nonlinear_arith)
            requires
                a2 == acc * 10 + d0,
                pow10(t.len() as nat) == 10 * pow10(tr.len() as nat),
                dval(t) == d0 * pow10(tr.len() as nat) + dval(tr),
                tr.len() == t.len() - 1,
        ;
        assert(a2 <= a2 * pow10(tr.len() as nat) + dval(tr)) by (nonlinear_arith)
            requires
                a2 >= 0,
                pow10(tr.len() as nat) >= 1,
                dval(tr) >= 0,
        ;
        assert(forall|k: int| 0 <= k < tr.len() ==> s[i + 1 + k] == tr[k]) by {
            assert forall|k: int| 0 <= k < tr.len() implies s[i + 1 + k] == tr[k] by {
                assert(tr[k] == t.subrange(1, t.len() as int)[k]);
                assert(s[i + (k + 1)] == t[k + 1]);
            }
        }
        assert(follows(s, i + 1, tr));
        lemma_p_digits_scan(s, i + 1, tr, a2);
    }
}

/// A decimal region bounded by a non-digit parses back to its value.
pub proof fn lemma_p_int_complete(s: Seq<char>, i: int, v: int)
    requires
        follows(s, i, enc_int(v)),
        i64::MIN <= v <= i64::MAX,
        i + enc_int(v).len() == s.len() || !is_digit(s[i + enc_int(v).len()]),
    ensures
        p_int(s, i) == Some((v, i + enc_int(v).len())),
{
    if v < 0 {
        let t = enc_nat(-v);
        lemma_enc_nat_digits(-v);
        assert(enc_int(v) == seq!['-'] + t);
        assert(s[i] == '-');
        assert forall|k: int| 0 <= k < t.len() implies s[i + 1 + k] == t[k] by {
            assert((seq!['-'] + t)[k + 1] == t[k]);
            assert(s[i + (k + 1)] == (seq!['-'] + t)[k + 1]);
        }
        assert(follows(s, i + 1, t));
        assert(is_digit(s[i + 1])) by {
            assert(s[i + 1] == t[0]);
        }
        lemma_pow10_pos(t.len() as nat);
        lemma_p_digits_scan(s, i + 1, t, 0);
        assert(0 * pow10(t.len() as nat) + dval(t) == -v);
        assert(-v <= 0x8000000000000000);
    } else {
        let t = enc_nat(v);
        lemma_enc_nat_digits(v);
        assert(s[i] == t[0]);
        assert(is_digit(s[i]));
        assert(s[i] != '-');
        lemma_p_digits_scan(s, i, t, 0);
        assert(0 * pow10(t.len() as nat) + dval(t) == v);
    }
}

/// An escaped string body followed by its closing quote parses back.
pub proof fn lemma_p_str_body_complete(s: Seq<char>, i: int, w: Seq<char>)
    requires
        follows(s, i, enc_chars(w) + seq!['"']),
    ensures
        p_str_body(s, i) == Some((w, i + enc_chars(w).len() + 1)),
    decreases w.len(),
{
    let body = enc_chars(w) + seq!['"'];
    if w.len() == 0 {
        assert(enc_chars(w) =~= Seq::<char>::empty());
        assert(s[i + 0] == body[0]);
        assert(body[0] == '"');
        assert(s[i] == '"');
    } else {
        let e0 = esc_char(w[0]);
        let wr = w.drop_first();
        assert(enc_chars(w) == e0 + enc_chars(wr));
        assert(body =~= e0 + (enc_chars(wr) + seq!['"']));
        lemma_follows_concat(s, i, e0, enc_chars(wr) + seq!['"']);
        lemma_p_str_body_complete(s, i + e0.len(), wr);
        if w[0] == '"' || w[0] == '\\' {
            assert(e0 == seq!['\\', w[0]]);
            assert(s[i + 0] == e0[0]);
            assert(s[i + 1] == e0[1]);
            assert(s[i] == '\\');
            assert(s[i + 1] == w[0]);
            assert(p_str_body(s, i) == (match p_str_body(s, i + 2) {
                Some((x, j)) => Some((seq![s[i + 1]] + x, j)),
                None => None,
            }));
            assert(seq![s[i + 1]] + wr =~= w);
        } else {
            assert(e0 == seq![w[0]]);
            assert(s[i + 0] == e0[0]);
            assert(s[i] == w[0]);
            assert(s[i] != '"' && s[i] != '\\');
            assert(seq![s[i]] + wr =~= w);
        }
    }
}

/// A quoted string parses back to itself.
pub proof fn lemma_p_str_complete(s: Seq<char>, i: int, w: Seq<char>)
    requires
        follows(s, i, enc_str(w)),
    ensures
        p_str(s, i) == Some((w, i + enc_str(w).len())),
{
    assert(enc_str(w) =~= seq!['"'] + (enc_chars(w) + seq!['"']));
    lemma_follows_concat(s, i, seq!['"'], enc_chars(w) + seq!['"']);
    assert(s[i + 0] == seq!['"'][0]);
    assert(s[i] == '"');
    lemma_p_str_body_complete(s, i + 1, w);
}


proof fn lemma_enc_scalar_first(v: ArgValV)
    ensures
        enc_scalar(v).len() >= 1,
        enc_scalar(v)[0] == 'n' || enc_scalar(v)[0] == 't' || enc_scalar(v)[0] == 'f'
            || enc_scalar(v)[0] == '"' || enc_scalar(v)[0] == '-' || is_digit(enc_scalar(v)[0]),
{
    match v {
        ArgValV::Null => {},
        ArgValV::Bool(_b) => {},
        ArgValV::Int(n) => {
            if n < 0 {
                assert(enc_int(n)[0] == (seq!['-'] + enc_nat(-n))[0]);
            } else {
                lemma_enc_nat_digits(n);
            }
        },
        ArgValV::Str(w) => {
            assert(enc_str(w)[0] == (seq!['"'] + enc_chars(w) + seq!['"'])[0]);
        },
    }
}

/// An encoded scalar bounded by a non-digit parses back to its value.
pub proof fn lemma_p_scalar_complete(s: Seq<char>, i: int, v: ArgValV)
    requires
        follows(s, i, enc_scalar(v)),
        scalar_wf(v),
        i + enc_scalar(v).len() == s.len() || !is_digit(s[i + enc_scalar(v).len()]),
    ensures
        p_scalar(s, i) == Some((v, i + enc_scalar(v).len())),
{
    lemma_enc_scalar_first(v);
    assert(s[i + 0] == enc_scalar(v)[0]);
    match v {
        ArgValV::Null => {
            assert(s[i] == 'n');
            assert(p_lit(s, i, seq!['n', 'u', 'l', 'l']) == Some(i + 4));
        },
        ArgValV::Bool(b) => {
            if b {
                assert(s[i] == 't');
                assert(p_lit(s, i, seq!['t', 'r', 'u', 'e']) == Some(i + 4));
            } else {
                assert(s[i] == 'f');
                assert(p_lit(s, i, seq!['f', 'a', 'l', 's', 'e']) == Some(i + 5));
            }
        },
        ArgValV::Int(n) => {
            if n < 0 {
                assert(enc_int(n)[0] == (seq!['-'] + enc_nat(-n))[0]);
                assert(s[i] == '-');
            } else {
                lemma_enc_nat_digits(n);
                assert(is_digit(enc_nat(n)[0]));
                assert(is_digit(s[i]));
            }
            assert(s[i] != 'n' && s[i] != 't' && s[i] != 'f' && s[i] != '"');
            lemma_p_int_complete(s, i, n);
        },
        ArgValV::Str(w) => {
            assert(s[i] == '"');
            lemma_p_str_complete(s, i, w);
        },
    }
}

/// An encoded object member parses back to its key and value.
pub proof fn lemma_p_pair_complete(s: Seq<char>, i: int, p: (Seq<char>, ArgValV))
    requires
        follows(s, i, enc_pair(p)),
        scalar_wf(p.1),
        i + enc_pair(p).len() == s.len() || !is_digit(s[i + enc_pair(p).len()]),
    ensures
        p_pair(s, i) == Some((p, i + enc_pair(p).len())),
{
    assert(enc_pair(p) =~= enc_str(p.0) + (seq![':'] + enc_scalar(p.1)));
    lemma_follows_concat(s, i, enc_str(p.0), seq![':'] + enc_scalar(p.1));
    lemma_p_str_complete(s, i, p.0);
    let j1 = i + enc_str(p.0).len();
    lemma_follows_concat(s, j1, seq![':'], enc_scalar(p.1));
    assert(s[j1 + 0] == seq![':'][0]);
    assert(s[j1] == ':');
    lemma_enc_scalar_first(p.1);
    lemma_p_scalar_complete(s, j1 + 1, p.1);
}

/// A non-empty encoded member list closed by `}` parses back whole.
pub proof fn lemma_p_pairs_complete(s: Seq<char>, i: int, ps: Seq<(Seq<char>, ArgValV)>)
    requires
        ps.len() >= 1,
        follows(s, i, enc_pairs(ps)),
        forall|k: int| 0 <= k < ps.len() ==> scalar_wf(#[trigger] ps[k].1),
        i + enc_pairs(ps).len() < s.len(),
        s[i + enc_pairs(ps).len()] == '}',
    ensures
        p_pairs(s, i) == Some((ps, i + enc_pairs(ps).len())),
    decreases ps.len(),
{
    if ps.len() == 1 {
        assert(enc_pairs(ps) == enc_pair(ps[0]));
        assert(!is_digit('}')) by {
            assert('}' as int == 125);
        }
        lemma_p_pair_complete(s, i, ps[0]);
        let j = i + enc_pair(ps[0]).len();
        assert(s[j] == '}');
        assert(seq![ps[0]] =~= ps);
    } else {
        let pr = ps.drop_first();
        assert(enc_pairs(ps) == enc_pair(ps[0]) + seq![','] + enc_pairs(pr));
        assert(enc_pairs(ps) =~= enc_pair(ps[0]) + (seq![','] + enc_pairs(pr)));
        lemma_follows_concat(s, i, enc_pair(ps[0]), seq![','] + enc_pairs(pr));
        let j = i + enc_pair(ps[0]).len();
        lemma_follows_concat(s, j, seq![','], enc_pairs(pr));
        assert(s[j + 0] == seq![','][0]);
        assert(s[j] == ',');
        assert(!is_digit(','));
        lemma_p_pair_complete(s, i, ps[0]);
        assert forall|k: int| 0 <= k < pr.len() implies scalar_wf(#[trigger] pr[k].1) by {
            assert(pr[k] == ps.subrange(1, ps.len() as int)[k]);
        }
        lemma_p_pairs_complete(s, j + 1, pr);
        assert(seq![ps[0]] + pr =~= ps);
    }
}

proof fn lemma_enc_arg_first(a: ArgV)
    ensures
        enc_arg(a).len() >= 1,
        enc_arg(a)[0] == '{' || enc_arg(a)[0] == 'n' || enc_arg(a)[0] == 't' || enc_arg(a)[0]
            == 'f' || enc_arg(a)[0] == '"' || enc_arg(a)[0] == '-' || is_digit(enc_arg(a)[0]),
{
    match a {
        ArgV::Scalar(v) => {
            lemma_enc_scalar_first(v);
        },
        ArgV::Obj(ps) => {
            assert(enc_arg(a)[0] == (seq!['{'] + enc_pairs(ps) + seq!['}'])[0]);
        },
    }
}

proof fn lemma_enc_pairs_first(ps: Seq<(Seq<char>, ArgValV)>)
    requires
        ps.len() >= 1,
    ensures
        enc_pairs(ps).len() >= 1,
        enc_pairs(ps)[0] == '"',
{
    let e = enc_pair(ps[0]);
    assert(e[0] == (enc_str(ps[0].0) + seq![':'] + enc_scalar(ps[0].1))[0]);
    assert(enc_str(ps[0].0)[0] == (seq!['"'] + enc_chars(ps[0].0) + seq!['"'])[0]);
    assert(e[0] == '"');
    if ps.len() == 1 {
        assert(enc_pairs(ps) == e);
    } else {
        assert(enc_pairs(ps) == e + seq![','] + enc_pairs(ps.drop_first()));
        assert(enc_pairs(ps)[0] == e[0]);
    }
}

/// An encoded element bounded by a non-digit parses back.
pub proof fn lemma_p_arg_complete(s: Seq<char>, i: int, a: ArgV)
    requires
        follows(s, i, enc_arg(a)),
        arg_wf(a),
        i + enc_arg(a).len() == s.len() || !is_digit(s[i + enc_arg(a).len()]),
    ensures
        p_arg(s, i) == Some((a, i + enc_arg(a).len())),
{
    lemma_enc_arg_first(a);
    assert(s[i + 0] == enc_arg(a)[0]);
    match a {
        ArgV::Scalar(v) => {
            lemma_enc_scalar_first(v);
            assert(enc_arg(a) == enc_scalar(v));
            assert(s[i] == enc_scalar(v)[0]);
            assert(s[i] != '{');
            lemma_p_scalar_complete(s, i, v);
        },
        ArgV::Obj(ps) => {
            assert(s[i] == '{');
            if ps.len() == 0 {
                assert(ps =~= Seq::<(Seq<char>, ArgValV)>::empty());
                assert(enc_pairs(ps) =~= Seq::<char>::empty());
                assert(enc_arg(a) =~= seq!['{', '}']);
                assert(s[i + 1] == enc_arg(a)[1]);
                assert(s[i + 1] == '}');
            } else {
                assert(enc_arg(a) =~= seq!['{'] + (enc_pairs(ps) + seq!['}']));
                lemma_follows_concat(s, i, seq!['{'], enc_pairs(ps) + seq!['}']);
                lemma_follows_concat(s, i + 1, enc_pairs(ps), seq!['}']);
                lemma_enc_pairs_first(ps);
                assert(s[i + 1 + 0] == enc_pairs(ps)[0]);
                assert(s[i + 1] == '"');
                let j = i + 1 + enc_pairs(ps).len();
                assert(s[j + 0] == seq!['}'][0]);
                assert(s[j] == '}');
                lemma_p_pairs_complete(s, i + 1, ps);
            }
        },
    }
}

/// A non-empty encoded element list closed by `]` parses back whole.
pub proof fn lemma_p_elems_complete(s: Seq<char>, i: int, args: Seq<ArgV>)
    requires
        args.len() >= 1,
        follows(s, i, enc_elems(args)),
        args_wf(args),
        i + enc_elems(args).len() < s.len(),
        s[i + enc_elems(args).len()] == ']',
    ensures
        p_elems(s, i) == Some((args, i + enc_elems(args).len())),
    decreases args.len(),
{
    if args.len() == 1 {
        assert(enc_elems(args) == enc_arg(args[0]));
        assert(!is_digit(']'));
        lemma_p_arg_complete(s, i, args[0]);
        let j = i + enc_arg(args[0]).len();
        assert(s[j] == ']');
        assert(s[j] != ',');
        assert(seq![args[0]] =~= args);
    } else {
        let ar = args.drop_first();
        assert(enc_elems(args) == enc_arg(args[0]) + seq![','] + enc_elems(ar));
        assert(enc_elems(args) =~= enc_arg(args[0]) + (seq![','] + enc_elems(ar)));
        lemma_follows_concat(s, i, enc_arg(args[0]), seq![','] + enc_elems(ar));
        let j = i + enc_arg(args[0]).len();
        lemma_follows_concat(s, j, seq![','], enc_elems(ar));
        assert(s[j + 0] == seq![','][0]);
        assert(s[j] == ',');
        assert(!is_digit(','));
        lemma_p_arg_complete(s, i, args[0]);
        assert forall|k: int| 0 <= k < ar.len() implies arg_wf(#[trigger] ar[k]) by {
            assert(ar[k] == args.subrange(1, args.len() as int)[k]);
        }
        lemma_p_elems_complete(s, j + 1, ar);
        assert(seq![args[0]] + ar =~= args);
    }
}

/// A whole encoded argument array parses back to the same arguments.
pub proof fn lemma_p_args_complete(s: Seq<char>, i: int, args: Seq<ArgV>)
    requires
        follows(s, i, enc_args(args)),
        args_wf(args),
    ensures
        p_args(s, i) == Some((args, i + enc_args(args).len())),
{
    assert(s[i + 0] == enc_args(args)[0]);
    assert(enc_args(args)[0] == (seq!['['] + enc_elems(args) + seq![']'])[0]);
    assert(s[i] == '[');
    if args.len() == 0 {
        assert(enc_elems(args) =~= Seq::<char>::empty());
        assert(enc_args(args) =~= seq!['[', ']']);
        assert(s[i + 1] == enc_args(args)[1]);
        assert(s[i + 1] == ']');
        assert(Seq::<ArgV>::empty() =~= args);
    } else {
        assert(enc_args(args) =~= seq!['['] + (enc_elems(args) + seq![']']));
        lemma_follows_concat(s, i, seq!['['], enc_elems(args) + seq![']']);
        lemma_follows_concat(s, i + 1, enc_elems(args), seq![']']);
        lemma_enc_arg_first(args[0]);
        assert(enc_elems(args)[0] == enc_arg(args[0])[0]) by {
            if args.len() == 1 {
            } else {
                assert(enc_elems(args) == enc_arg(args[0]) + seq![','] + enc_elems(
                    args.drop_first(),
                ));
            }
        }
        assert(s[i + 1 + 0] == enc_elems(args)[0]);
        assert(s[i + 1] != ']');
        let j = i + 1 + enc_elems(args).len();
        assert(s[j + 0] == seq![']'][0]);
        assert(s[j] == ']');
        assert(args_wf(args));
        assert(args[0] == args[0]);
        lemma_p_elems_complete(s, i + 1, args);
    }
}

} // verus!
