//! What a Jev judge is asked, and how its answer is read.
use vstd::prelude::*;
use vstd::string::*;
use crate::json;
use crate::json::Json;
use crate::provider::message;
use crate::text;

verus! {

pub const DEFAULT_JEV_MODEL: &'static str = "jev-1.13.0";

pub const DEFAULT_VERCEL_JEV_MODEL: &'static str = "typesafe-ai/jev";

pub const TYPESAFE_ENDPOINT: &'static str = "https://api.typesafe.ai/v1/systemone";

pub const VERCEL_ENDPOINT: &'static str = "https://ai-gateway.vercel.sh/v1/evaluate";

pub const MAX_RESPONSE_BYTES: u64 = 1_048_576;

/// A probability of one, in units of 10^-18.
pub const CERTAIN: u64 = 1_000_000_000_000_000_000;

/// Below this probability of being needed, in units of 10^-18, a call is dropped.
pub const DROP_THRESHOLD: u64 = 200_000_000_000_000_000;

/// Which endpoint evaluates the questions. Both serve the same Jev model; the
/// wire contract differs in the model field, the yes/no primitive name and the
/// answer field, so the request and the parser branch on it.
#[derive(Clone, Copy, Debug, PartialEq, Eq, Structural)]
pub enum JevBackend {
    /// TypeSafe System One API, selected by `TYPESAFE_API_KEY`.
    Typesafe,
    /// Vercel AI Gateway evaluation route, selected by `AI_GATEWAY_API_KEY`.
    Vercel,
}

impl Default for JevBackend {
    fn default() -> (r: JevBackend)
        ensures
            r == JevBackend::Typesafe,
    {
        JevBackend::Typesafe
    }
}

/// The backend that a name, in any case and with white space around it, stands for.
pub open spec fn backend_of(value: Seq<char>) -> Option<JevBackend> {
    let name = text::lower(text::trim(value));
    if name == "typesafe"@ || name == "systemone"@ {
        Some(JevBackend::Typesafe)
    } else if name == "vercel"@ || name == "gateway"@ {
        Some(JevBackend::Vercel)
    } else {
        None
    }
}

pub open spec fn backend_name(backend: JevBackend) -> Seq<char> {
    match backend {
        JevBackend::Typesafe => "typesafe"@,
        JevBackend::Vercel => "vercel"@,
    }
}

pub open spec fn backend_model(backend: JevBackend) -> Seq<char> {
    match backend {
        JevBackend::Typesafe => DEFAULT_JEV_MODEL@,
        JevBackend::Vercel => DEFAULT_VERCEL_JEV_MODEL@,
    }
}

impl JevBackend {
    pub fn name(self) -> (r: &'static str)
        ensures
            r@ == backend_name(self),
    {
        match self {
            JevBackend::Typesafe => "typesafe",
            JevBackend::Vercel => "vercel",
        }
    }

    pub fn parse(value: &str) -> (r: Result<JevBackend, String>)
        ensures
            (match r {
                Ok(backend) => backend_of(value@) == Some(backend),
                Err(message) => backend_of(value@) is None && message@ == "unknown Jev backend '"@
                    + text::lower(text::trim(value@))
                    + "'; expected 'typesafe' or 'vercel'"@,
            }),
    {
        let trimmed = text::trimmed(value);
        let name = text::lowered(trimmed.as_str());
        if text::same(name.as_str(), "typesafe") || text::same(name.as_str(), "systemone") {
            Ok(JevBackend::Typesafe)
        } else if text::same(name.as_str(), "vercel") || text::same(name.as_str(), "gateway") {
            Ok(JevBackend::Vercel)
        } else {
            let mut message = "unknown Jev backend '".to_owned();
            message.append(name.as_str());
            message.append("'; expected 'typesafe' or 'vercel'");
            Err(message)
        }
    }

    pub fn default_model(self) -> (r: &'static str)
        ensures
            r@ == backend_model(self),
    {
        match self {
            JevBackend::Typesafe => DEFAULT_JEV_MODEL,
            JevBackend::Vercel => DEFAULT_VERCEL_JEV_MODEL,
        }
    }

    /// Vercel AI Gateway keys carry the `vck_` prefix Vercel issues, so a lone
    /// credential is enough to pick the endpoint when no backend is set.
    pub fn for_api_key(api_key: &str) -> (r: JevBackend)
        ensures
            r == if text::starts_with(text::trim_start(api_key@), "vck_"@) {
                JevBackend::Vercel
            } else {
                JevBackend::Typesafe
            },
    {
        if text::begins(text::start_trimmed(api_key).as_str(), "vck_") {
            JevBackend::Vercel
        } else {
            JevBackend::Typesafe
        }
    }
}

#[derive(Clone, Debug, PartialEq, Eq)]
pub struct JevPruneConfig {
    pub backend: JevBackend,
    pub api_key: String,
    pub model: String,
}

impl JevPruneConfig {
    pub fn new(backend: JevBackend, api_key: String) -> (r: JevPruneConfig)
        ensures
            r.backend == backend,
            r.api_key@ == api_key@,
            r.model@ == backend_model(backend),
    {
        JevPruneConfig { backend, api_key, model: backend.default_model().to_owned() }
    }

    /// Override the model. An empty value keeps the backend default, matching
    /// how the environment resolution treats a blank `SLIM_JEV_MODEL`.
    pub fn with_model(self, model: String) -> (r: JevPruneConfig)
        ensures
            r.backend == self.backend,
            r.api_key@ == self.api_key@,
            r.model@ == if text::trim(model@).len() == 0 {
                self.model@
            } else {
                model@
            },
    {
        if text::trimmed(model.as_str()).as_str().is_empty() {
            self
        } else {
            JevPruneConfig { model, ..self }
        }
    }
}

/// The URL that questions are sent to.
pub fn request_url(backend: JevBackend) -> (r: &'static str)
    ensures
        r@ == (match backend {
            JevBackend::Typesafe => TYPESAFE_ENDPOINT@,
            JevBackend::Vercel => VERCEL_ENDPOINT@,
        }),
{
    match backend {
        JevBackend::Typesafe => TYPESAFE_ENDPOINT,
        JevBackend::Vercel => VERCEL_ENDPOINT,
    }
}

/// The yes/no question type. TypeSafe's `noul` is the AI Gateway evaluation
/// specification's `boolean`.
pub open spec fn question_kind(backend: JevBackend) -> Seq<char> {
    match backend {
        JevBackend::Typesafe => "noul"@,
        JevBackend::Vercel => "boolean"@,
    }
}

/// The field carrying the yes probability: `noul` on TypeSafe, `probability`
/// on the gateway.
pub open spec fn answer_key(backend: JevBackend) -> Seq<char> {
    match backend {
        JevBackend::Typesafe => "noul"@,
        JevBackend::Vercel => "probability"@,
    }
}

fn question_type(backend: JevBackend) -> (r: &'static str)
    ensures
        r@ == question_kind(backend),
{
    match backend {
        JevBackend::Typesafe => "noul",
        JevBackend::Vercel => "boolean",
    }
}

fn answer_field(backend: JevBackend) -> (r: &'static str)
    ensures
        r@ == answer_key(backend),
{
    match backend {
        JevBackend::Typesafe => "noul",
        JevBackend::Vercel => "probability",
    }
}

/// The JSON of one question.
pub open spec fn question_tree(backend: JevBackend, instructions: Seq<char>) -> json::Tree {
    let criteria = json::empty_object().with(
        "true"@,
        json::Tree::Text("Freshest evidence for pending work; not restated later"@),
    ).with(
        "false"@,
        json::Tree::Text("Stale, superseded, failed-and-retried, or restated later"@),
    );
    json::empty_object().with("type"@, json::Tree::Text(question_kind(backend))).with(
        "instructions"@,
        json::Tree::Text(instructions),
    ).with("criteria"@, criteria)
}

/// The questions: an id and the instructions of each.
pub open spec fn question_views(questions: Seq<(String, String)>) -> Seq<(Seq<char>, Seq<char>)> {
    questions.map_values(|q: (String, String)| (q.0@, q.1@))
}

pub open spec fn questions_tree(
    backend: JevBackend,
    questions: Seq<(Seq<char>, Seq<char>)>,
) -> json::Tree
    decreases questions.len(),
{
    if questions.len() == 0 {
        json::empty_object()
    } else {
        questions_tree(backend, questions.drop_last()).with(
            questions.last().0,
            question_tree(backend, questions.last().1),
        )
    }
}

/// The JSON of a request.
pub open spec fn request_tree(
    backend: JevBackend,
    model: Seq<char>,
    state: json::Tree,
    questions: Seq<(Seq<char>, Seq<char>)>,
) -> json::Tree {
    json::empty_object().with("model"@, json::Tree::Text(model)).with("state"@, state).with(
        "questions"@,
        questions_tree(backend, questions),
    )
}

fn write_question(backend: JevBackend, instructions: &str) -> (r: Json)
    ensures
        r@ == question_tree(backend, instructions@),
{
    let criteria = Json::object().with(
        "true",
        Json::string("Freshest evidence for pending work; not restated later"),
    ).with("false", Json::string("Stale, superseded, failed-and-retried, or restated later"));
    Json::object().with("type", Json::string(question_type(backend))).with(
        "instructions",
        Json::string(instructions),
    ).with("criteria", criteria)
}

pub fn request_body(
    backend: JevBackend,
    model: &str,
    state: &Json,
    questions: &Vec<(String, String)>,
) -> (r: Json)
    ensures
        r@ == request_tree(backend, model@, state@, question_views(questions@)),
{
    let ghost all = question_views(questions@);
    let mut asked = Json::object();
    let mut i: usize = 0;
    while i < questions.len()
        invariant
            i <= questions@.len(),
            all == question_views(questions@),
            asked@ == questions_tree(backend, all.take(i as int)),
        decreases questions@.len() - i,
    {
        assert(all.take(i + 1).drop_last() =~= all.take(i as int));
        let q = &questions[i];
        asked = asked.with(q.0.as_str(), write_question(backend, q.1.as_str()));
        i = i + 1;
    }
    assert(all.take(all.len() as int) =~= all);
    Json::object().with("model", Json::string(model)).with("state", state.copy()).with(
        "questions",
        asked,
    )
}

/// The parts of a decimal number: its digits, how many of them stand before the
/// point, and whether it is negative.
pub struct Decimal {
    pub digits: Seq<char>,
    pub point: int,
    pub negative: bool,
}

/// The position of a character from `i` on, or the length of the text.
pub open spec fn position_or_end(s: Seq<char>, c: char, i: int) -> int
    decreases s.len() - i,
{
    if i >= s.len() {
        s.len() as int
    } else if s[i] == c {
        i
    } else {
        position_or_end(s, c, i + 1)
    }
}

/// A text without the sign that it may start with.
pub open spec fn unsigned_part(s: Seq<char>) -> Seq<char> {
    if s.len() > 0 && (s[0] == '-' || s[0] == '+') {
        s.skip(1)
    } else {
        s
    }
}

/// The exponent that a text stands for: at most four digits with an optional sign.
pub open spec fn exponent_of(s: Seq<char>) -> Option<int> {
    let digits = unsigned_part(s);
    if 0 < digits.len() <= 4 && json::all_digits(digits) {
        Some(
            if s[0] == '-' {
                -(json::digits_value(digits) as int)
            } else {
                json::digits_value(digits) as int
            },
        )
    } else {
        None
    }
}

/// The digits of a mantissa, without its point.
pub open spec fn digits_of(mantissa: Seq<char>) -> Seq<char> {
    let dot = position_or_end(mantissa, '.', 0);
    if dot < mantissa.len() {
        mantissa.take(dot) + mantissa.skip(dot + 1)
    } else {
        mantissa
    }
}

/// The exponent of a number whose `e` stands at a position; none stands for zero.
pub open spec fn scale_of(body: Seq<char>, e: int) -> Option<int> {
    if e < body.len() {
        exponent_of(body.skip(e + 1))
    } else {
        Some(0int)
    }
}

/// A number's text taken apart: an optional minus, digits with an optional point
/// among them, and an optional exponent behind an `e`.
pub open spec fn decimal_of(s: Seq<char>) -> Option<Decimal> {
    let negative = s.len() > 0 && s[0] == '-';
    let body = if negative {
        s.skip(1)
    } else {
        s
    };
    let e = position_or_end(body, 'e', 0);
    let mantissa = body.take(e);
    let exponent = scale_of(body, e);
    let dot = position_or_end(mantissa, '.', 0);
    let digits = digits_of(mantissa);
    if exponent is Some && digits.len() > 0 && json::all_digits(digits) {
        Some(Decimal { digits, point: dot + exponent->0, negative })
    } else {
        None
    }
}

/// The number that the first `n` digits stand for, with zeros behind the last one.
pub open spec fn leading_value(digits: Seq<char>, n: int) -> nat
    decreases n,
{
    if n <= 0 {
        0
    } else {
        10 * leading_value(digits, n - 1) + (if n <= digits.len() {
            (digits[n - 1] as nat - 48) as nat
        } else {
            0
        })
    }
}

/// A probability in units of 10^-18, rounded down; nothing where the number lies
/// outside of zero to one.
pub open spec fn probability(d: Decimal) -> Option<u64> {
    let units = leading_value(d.digits, d.point + 18);
    if units > CERTAIN || (d.negative && leading_value(d.digits, d.digits.len() as int) > 0) {
        None
    } else {
        Some(units as u64)
    }
}

proof fn lemma_leading_grows(digits: Seq<char>, a: int, b: int)
    requires
        a <= b,
        json::all_digits(digits),
    ensures
        leading_value(digits, a) <= leading_value(digits, b),
    decreases b - a,
{
    if a < b {
        lemma_leading_grows(digits, a, b - 1);
    }
}

/// Behind the last digit, nothing stays nothing.
proof fn lemma_leading_zero(digits: Seq<char>, a: int, b: int)
    requires
        digits.len() <= a <= b,
        leading_value(digits, a) == 0,
    ensures
        leading_value(digits, b) == 0,
    decreases b - a,
{
    if a < b {
        lemma_leading_zero(digits, a, b - 1);
    }
}

fn find_char(s: &Vec<char>, c: char, from: usize, to: usize) -> (r: usize)
    requires
        from <= to <= s@.len(),
    ensures
        from <= r <= to,
        r - from == position_or_end(s@.subrange(from as int, to as int), c, 0),
{
    let ghost part = s@.subrange(from as int, to as int);
    let mut i: usize = from;
    while i < to && s[i] != c
        invariant
            from <= i <= to <= s@.len(),
            part == s@.subrange(from as int, to as int),
            position_or_end(part, c, 0) == position_or_end(part, c, i - from),
        decreases to - i,
    {
        assert(part[i - from] == s@[i as int]);
        i = i + 1;
    }
    if i < to {
        assert(part[i - from] == s@[i as int]);
    }
    i
}

fn digits_ok(s: &Vec<char>, from: usize, to: usize) -> (r: bool)
    requires
        from <= to <= s@.len(),
    ensures
        r == json::all_digits(s@.subrange(from as int, to as int)),
{
    let ghost part = s@.subrange(from as int, to as int);
    let mut i: usize = from;
    while i < to
        invariant
            from <= i <= to <= s@.len(),
            part == s@.subrange(from as int, to as int),
            forall|k: int| 0 <= k < i - from ==> json::is_digit(#[trigger] part[k]),
        decreases to - i,
    {
        assert(part[i - from] == s@[i as int]);
        if s[i] < '0' || s[i] > '9' {
            assert(!json::is_digit(part[i - from]));
            return false;
        }
        i = i + 1;
    }
    true
}

fn read_exponent(s: &Vec<char>, from: usize) -> (r: Option<i64>)
    requires
        from <= s@.len(),
    ensures
        (match r {
            Some(e) => exponent_of(s@.skip(from as int)) == Some(e as int) && -9999 <= e <= 9999,
            None => exponent_of(s@.skip(from as int)) is None,
        }),
{
    let ghost whole = s@.skip(from as int);
    let n: usize = s.len();
    if from == n {
        return None;
    }
    assert(whole[0] == s@[from as int]);
    let negative = s[from] == '-';
    let start: usize = if negative || s[from] == '+' {
        from + 1
    } else {
        from
    };
    let ghost digits = unsigned_part(whole);
    assert(digits =~= s@.subrange(start as int, n as int));
    if start == n || n - start > 4 || !digits_ok(s, start, n) {
        return None;
    }
    let mut v: i64 = 0;
    let mut i: usize = start;
    while i < n
        invariant
            start <= i <= n == s@.len(),
            n - start <= 4,
            digits == s@.subrange(start as int, n as int),
            json::all_digits(digits),
            v == json::digits_value(digits.take(i - start)),
            i - start == 0 ==> v == 0,
            i - start == 1 ==> 0 <= v <= 9,
            i - start == 2 ==> 0 <= v <= 99,
            i - start == 3 ==> 0 <= v <= 999,
            i - start == 4 ==> 0 <= v <= 9999,
        decreases n - i,
    {
        assert(digits[i - start] == s@[i as int]);
        assert(json::is_digit(digits[i - start]));
        assert(digits.take(i - start + 1).drop_last() =~= digits.take(i - start));
        v = 10 * v + ((s[i] as u32 - 48) as i64);
        i = i + 1;
    }
    assert(digits.take(n - start) =~= digits);
    Some(
        if negative {
            -v
        } else {
            v
        },
    )
}

/// The characters `start..e` but the one at `dot`.
fn copy_digits(chars: &Vec<char>, start: usize, dot: usize, e: usize) -> (digits: Vec<char>)
    requires
        start <= dot <= e <= chars@.len(),
    ensures
        digits@ == if dot < e {
            chars@.subrange(start as int, dot as int) + chars@.subrange(dot + 1, e as int)
        } else {
            chars@.subrange(start as int, e as int)
        },
{
    let mut digits: Vec<char> = Vec::new();
    let mut i: usize = start;
    while i < dot
        invariant
            start <= i <= dot <= chars@.len(),
            digits@ == chars@.subrange(start as int, i as int),
        decreases dot - i,
    {
        digits.push(chars[i]);
        assert(chars@.subrange(start as int, i + 1) =~= chars@.subrange(
            start as int,
            i as int,
        ).push(chars@[i as int]));
        i = i + 1;
    }
    if dot == e {
        return digits;
    }
    let ghost front = digits@;
    let mut k: usize = dot + 1;
    assert(front + chars@.subrange(dot + 1, k as int) =~= front);
    while k < e
        invariant
            dot + 1 <= k <= e <= chars@.len(),
            digits@ == front + chars@.subrange(dot + 1, k as int),
        decreases e - k,
    {
        digits.push(chars[k]);
        assert(chars@.subrange(dot + 1, k + 1) =~= chars@.subrange(dot + 1, k as int).push(
            chars@[k as int],
        ));
        assert(digits@ =~= front + chars@.subrange(dot + 1, k + 1));
        k = k + 1;
    }
    digits
}

/// The value of the first `n` digits, where it is no more than certainty.
fn leading_units(digits: &Vec<char>, n: i128) -> (r: Option<u64>)
    requires
        json::all_digits(digits@),
    ensures
        (match r {
            Some(v) => v == leading_value(digits@, n as int) && v <= CERTAIN,
            None => leading_value(digits@, n as int) > CERTAIN,
        }),
{
    let count: usize = digits.len();
    let mut v: u64 = 0;
    let mut j: i128 = 0;
    while j < n
        invariant
            0 <= j,
            j <= n || (n < 0 && j == 0),
            count == digits@.len(),
            json::all_digits(digits@),
            v <= CERTAIN,
            v == leading_value(digits@, j as int),
        decreases n - j,
    {
        let c: u64 = if j < count as i128 {
            assert(json::is_digit(digits@[j as int]));
            (digits[j as usize] as u32 - 48) as u64
        } else {
            if v == 0 {
                proof {
                    lemma_leading_zero(digits@, j as int, n as int);
                }
                return Some(0);
            }
            0
        };
        v = 10 * v + c;
        j = j + 1;
        if v > CERTAIN {
            proof {
                lemma_leading_grows(digits@, j as int, n as int);
            }
            return None;
        }
    }
    Some(v)
}

/// Whether any of the digits is not zero.
fn any_digit(digits: &Vec<char>) -> (any: bool)
    requires
        json::all_digits(digits@),
    ensures
        any == (leading_value(digits@, digits@.len() as int) > 0),
{
    let mut any = false;
    let mut k: usize = 0;
    while k < digits.len()
        invariant
            k <= digits@.len(),
            json::all_digits(digits@),
            any == (leading_value(digits@, k as int) > 0),
        decreases digits@.len() - k,
    {
        assert(json::is_digit(digits@[k as int]));
        if digits[k] != '0' {
            any = true;
        }
        k = k + 1;
    }
    any
}

/// The digits of the mantissa `chars[start..e]` and where its point stands, where it
/// is made of digits.
fn read_mantissa(chars: &Vec<char>, start: usize, e: usize) -> (r: Option<(Vec<char>, usize)>)
    requires
        start <= e <= chars@.len(),
    ensures
        ({
            let mantissa = chars@.subrange(start as int, e as int);
            match r {
                Some((digits, dot)) => {
                    &&& digits@ == digits_of(mantissa)
                    &&& digits@.len() > 0
                    &&& json::all_digits(digits@)
                    &&& dot == position_or_end(mantissa, '.', 0)
                    &&& dot <= e - start
                },
                None => digits_of(mantissa).len() == 0 || !json::all_digits(digits_of(mantissa)),
            }
        }),
{
    let ghost mantissa = chars@.subrange(start as int, e as int);
    let dot: usize = find_char(chars, '.', start, e);
    let digits = copy_digits(chars, start, dot, e);
    assert(mantissa.take(dot - start) =~= chars@.subrange(start as int, dot as int));
    assert(dot < e ==> mantissa.skip(dot - start + 1) =~= chars@.subrange(dot + 1, e as int));
    assert(digits@ == digits_of(mantissa));
    assert(digits@.subrange(0, digits@.len() as int) =~= digits@);
    if digits.len() == 0 || !digits_ok(&digits, 0, digits.len()) {
        return None;
    }
    Some((digits, dot - start))
}

/// The exponent of the number `chars[start..]` whose `e` stands at a position.
fn read_scale(chars: &Vec<char>, start: usize, e: usize) -> (r: Option<i64>)
    requires
        start <= e <= chars@.len(),
    ensures
        (match r {
            Some(x) => scale_of(chars@.skip(start as int), e - start) == Some(x as int) && -9999 <= x
                <= 9999,
            None => scale_of(chars@.skip(start as int), e - start) is None,
        }),
{
    if e < chars.len() {
        assert(chars@.skip(start as int).skip(e - start + 1) =~= chars@.skip(e + 1));
        read_exponent(chars, e + 1)
    } else {
        Some(0)
    }
}

/// Takes a number's text apart: whether it has a minus, its digits, and how many of
/// them stand before the point.
fn read_decimal(s: &str) -> (r: Option<(bool, Vec<char>, i128)>)
    ensures
        (match r {
            Some((negative, digits, point)) => {
                &&& decimal_of(s@) == Some(
                    Decimal { digits: digits@, point: point as int, negative },
                )
                &&& json::all_digits(digits@)
                &&& point <= usize::MAX + 9999
                &&& point >= -9999
            },
            None => decimal_of(s@) is None,
        }),
{
    let chars = text::chars_of(s);
    let n: usize = chars.len();
    let negative = n > 0 && chars[0] == '-';
    let start: usize = if negative {
        1
    } else {
        0
    };
    let ghost body = s@.skip(start as int);
    assert(!negative ==> body =~= s@);
    let e: usize = find_char(&chars, 'e', start, n);
    assert(body =~= s@.subrange(start as int, n as int));
    assert(body.take(e - start) =~= s@.subrange(start as int, e as int));
    match (read_scale(&chars, start, e), read_mantissa(&chars, start, e)) {
        (Some(exponent), Some((digits, dot))) => Some(
            (negative, digits, dot as i128 + exponent as i128),
        ),
        _ => None,
    }
}

/// The probability that a number's text stands for: nothing where it is no number,
/// else nothing where it lies outside of zero to one.
pub fn read_probability(s: &str) -> (r: Option<Option<u64>>)
    ensures
        (match r {
            Some(p) => decimal_of(s@) is Some && p == probability(decimal_of(s@)->0),
            None => decimal_of(s@) is None,
        }),
{
    match read_decimal(s) {
        Some((negative, digits, point)) => if negative && any_digit(&digits) {
            Some(None)
        } else {
            Some(leading_units(&digits, point + 18))
        },
        None => None,
    }
}

/// Why an answer is rejected, or the probabilities that it gives.
pub open spec fn answer_of(backend: JevBackend, answer: Option<json::Tree>, id: Seq<char>) -> Result<
    u64,
    Seq<char>,
> {
    match answer {
        Some(json::Tree::Object(entries)) => {
            let object = json::Tree::Object(entries);
            if object.text_at("type"@) != Some(question_kind(backend)) {
                Err(
                    "answer for '"@ + id + "' has wrong type; expected "@ + question_kind(backend),
                )
            } else {
                match object.get(answer_key(backend)) {
                    Some(json::Tree::Number(n)) => match decimal_of(n) {
                        Some(d) => match probability(d) {
                            Some(p) => Ok(p),
                            None => Err(
                                answer_key(backend) + " answer for '"@ + id
                                    + "' must be finite and in [0,1]"@,
                            ),
                        },
                        None => Err(
                            "missing "@ + answer_key(backend) + " answer for '"@ + id + "'"@,
                        ),
                    },
                    _ => Err("missing "@ + answer_key(backend) + " answer for '"@ + id + "'"@),
                }
            }
        },
        _ => Err("missing answer for '"@ + id + "'"@),
    }
}

/// The probabilities of the first `n` ids, or why the first bad one is rejected.
pub open spec fn answers_of(
    backend: JevBackend,
    answers: json::Tree,
    ids: Seq<Seq<char>>,
    n: int,
) -> Result<Seq<u64>, Seq<char>>
    decreases n,
{
    if n <= 0 {
        Ok(Seq::empty())
    } else {
        match answers_of(backend, answers, ids, n - 1) {
            Err(message) => Err(message),
            Ok(before) => match answer_of(backend, answers.get(ids[n - 1]), ids[n - 1]) {
                Ok(p) => Ok(before.push(p)),
                Err(message) => Err(message),
            },
        }
    }
}

/// What a response says: the probabilities that it gives for the ids, or why it is
/// rejected.
pub open spec fn answered_probabilities(
    backend: JevBackend,
    response: json::Tree,
    ids: Seq<Seq<char>>,
) -> Result<Seq<u64>, Seq<char>> {
    match response.get("answers"@) {
        Some(json::Tree::Object(entries)) => {
            let answers = json::Tree::Object(entries);
            let known = forall|i: int|
                0 <= i < ids.len() ==> answers.get(#[trigger] ids[i]) is Some;
            if entries.len() != ids.len() || !known {
                Err(
                    "answer IDs do not match requested IDs (expected "@ + text::decimal(ids.len())
                        + ", got "@ + text::decimal(entries.len()) + ")"@,
                )
            } else {
                answers_of(backend, answers, ids, ids.len() as int)
            }
        },
        _ => Err("missing answers object"@),
    }
}

fn quoted_message(front: &str, id: &str, back: &str) -> (r: String)
    ensures
        r@ == front@ + id@ + back@,
{
    let mut r = front.to_owned();
    r.append(id);
    r.append(back);
    r
}

fn missing_field(backend: JevBackend, id: &str) -> (r: String)
    ensures
        r@ == "missing "@ + answer_key(backend) + " answer for '"@ + id@ + "'"@,
{
    let mut r = "missing ".to_owned();
    r.append(answer_field(backend));
    r.append(" answer for '");
    r.append(id);
    r.append("'");
    r
}

fn parse_answer(backend: JevBackend, answer: Option<&Json>, id: &str) -> (r: Result<u64, String>)
    ensures
        (match r {
            Ok(p) => answer_of(backend, opt_tree(answer), id@) == Ok::<u64, Seq<char>>(p),
            Err(message) => answer_of(backend, opt_tree(answer), id@) == Err::<u64, Seq<char>>(
                message@,
            ),
        }),
{
    let object = match answer {
        Some(json) => json,
        None => {
            return Err(quoted_message("missing answer for '", id, "'"));
        },
    };
    if !object.is_object() {
        return Err(quoted_message("missing answer for '", id, "'"));
    }
    let typed = match object.str_at("type") {
        Some(kind) => text::same(kind, question_type(backend)),
        None => false,
    };
    if !typed {
        let mut message = quoted_message(
            "answer for '",
            id,
            "' has wrong type; expected ",
        );
        message.append(question_type(backend));
        return Err(message);
    }
    match object.get(answer_field(backend)) {
        Some(Json::Number(n)) => match read_probability(n.as_str()) {
            Some(Some(p)) => Ok(p),
            Some(None) => {
                let mut message = answer_field(backend).to_owned();
                message.append(" answer for '");
                message.append(id);
                message.append("' must be finite and in [0,1]");
                Err(message)
            },
            None => Err(missing_field(backend, id)),
        },
        _ => Err(missing_field(backend, id)),
    }
}

pub open spec fn opt_tree(json: Option<&Json>) -> Option<json::Tree> {
    match json {
        Some(j) => Some(j@),
        None => None,
    }
}

/// Reads the probabilities that a response gives for the questions asked, in units
/// of 10^-18.
pub fn parse_answer_probabilities(backend: JevBackend, parsed: &Json, ids: &Vec<String>) -> (r:
    Result<Vec<u64>, String>)
    ensures
        (match r {
            Ok(list) => answered_probabilities(backend, parsed@, text::texts(ids@)) == Ok::<
                Seq<u64>,
                Seq<char>,
            >(list@),
            Err(message) => answered_probabilities(backend, parsed@, text::texts(ids@)) == Err::<
                Seq<u64>,
                Seq<char>,
            >(message@),
        }),
{
    broadcast use json::lemma_json_view;

    let ghost all = text::texts(ids@);
    let answers = match parsed.get("answers") {
        Some(json) => json,
        None => {
            return Err("missing answers object".to_owned());
        },
    };
    let size: usize = match answers {
        Json::Object(entries) => {
            assert(json::entry_trees(entries@).len() == entries@.len());
            entries.len()
        },
        _ => {
            return Err("missing answers object".to_owned());
        },
    };
    let ghost known = forall|i: int| 0 <= i < all.len() ==> answers@.get(#[trigger] all[i]) is Some;
    let mut matching = size == ids.len();
    let mut i: usize = 0;
    while i < ids.len()
        invariant
            i <= ids@.len(),
            all == text::texts(ids@),
            matching == (size == ids@.len() && forall|k: int|
                0 <= k < i ==> answers@.get(#[trigger] all[k]) is Some),
        decreases ids@.len() - i,
    {
        assert(all[i as int] == ids@[i as int]@);
        if answers.get(ids[i].as_str()).is_none() {
            matching = false;
        }
        i = i + 1;
    }
    if !matching {
        let mut message = "answer IDs do not match requested IDs (expected ".to_owned();
        message.append(text::decimal_of(ids.len() as u64).as_str());
        message.append(", got ");
        message.append(text::decimal_of(size as u64).as_str());
        message.append(")");
        return Err(message);
    }
    let mut out: Vec<u64> = Vec::new();
    let mut n: usize = 0;
    while n < ids.len()
        invariant
            n <= ids@.len(),
            all == text::texts(ids@),
            answers_of(backend, answers@, all, n as int) == Ok::<Seq<u64>, Seq<char>>(out@),
            answered_probabilities(backend, parsed@, all) == answers_of(
                backend,
                answers@,
                all,
                all.len() as int,
            ),
        decreases ids@.len() - n,
    {
        assert(all[n as int] == ids@[n as int]@);
        let answer = answers.get(ids[n].as_str());
        match parse_answer(backend, answer, ids[n].as_str()) {
            Ok(p) => {
                out.push(p);
            },
            Err(message) => {
                proof {
                    lemma_answers_stop(backend, answers@, all, n + 1, all.len() as int);
                }
                return Err(message);
            },
        }
        n = n + 1;
    }
    Ok(out)
}

proof fn lemma_answers_stop(
    backend: JevBackend,
    answers: json::Tree,
    ids: Seq<Seq<char>>,
    n: int,
    m: int,
)
    requires
        n <= m,
        answers_of(backend, answers, ids, n) is Err,
    ensures
        answers_of(backend, answers, ids, m) == answers_of(backend, answers, ids, n),
    decreases m - n,
{
    if n < m {
        lemma_answers_stop(backend, answers, ids, n, m - 1);
    }
}

/// A judge's answer to a batch of questions.
#[derive(Clone, Debug, PartialEq, Eq)]
pub struct JevJudgment {
    /// The probability of each question's yes, in units of 10^-18.
    pub probabilities: Vec<u64>,
    pub input_tokens: Option<u64>,
    pub output_tokens: Option<u64>,
    pub model: Option<String>,
}

impl Default for JevJudgment {
    fn default() -> (r: JevJudgment)
        ensures
            r.probabilities@ == Seq::<u64>::empty(),
            r.input_tokens is None,
            r.output_tokens is None,
            r.model is None,
    {
        JevJudgment {
            probabilities: Vec::new(),
            input_tokens: None,
            output_tokens: None,
            model: None,
        }
    }
}

impl JevJudgment {
    pub fn probabilities(probabilities: Vec<u64>) -> (r: JevJudgment)
        ensures
            r.probabilities@ == probabilities@,
            r.input_tokens is None,
            r.output_tokens is None,
            r.model is None,
    {
        JevJudgment { probabilities, input_tokens: None, output_tokens: None, model: None }
    }
}

#[derive(Clone, Debug, PartialEq, Eq)]
pub struct JevJudgeMetadata {
    pub backend: Option<String>,
    pub requested_model: Option<String>,
}

impl Default for JevJudgeMetadata {
    fn default() -> (r: JevJudgeMetadata)
        ensures
            r.backend is None,
            r.requested_model is None,
    {
        JevJudgeMetadata { backend: None, requested_model: None }
    }
}

/// A token count that a response reports, under the first of two keys that it has.
pub open spec fn reported(response: json::Tree, first: Seq<char>, second: Seq<char>) -> Option<
    u64,
> {
    match response.get("usage"@) {
        Some(usage) => match usage.get(first) {
            Some(value) => value.unsigned(),
            None => usage.unsigned_at(second),
        },
        None => None,
    }
}

/// The model that a response names.
pub open spec fn named_model(response: json::Tree) -> Option<Seq<char>> {
    match response.get("model"@) {
        Some(model) => model.text(),
        None => response.text_at("modelId"@),
    }
}

fn usage_tokens(parsed: &Json, first: &str, second: &str) -> (r: Option<u64>)
    ensures
        r == reported(parsed@, first@, second@),
{
    match parsed.get("usage") {
        Some(usage) => match usage.get(first) {
            Some(value) => value.as_u64(),
            None => usage.u64_at(second),
        },
        None => None,
    }
}

/// Whether a judgment is what a response says. One whose answers are rejected has
/// no probabilities.
pub open spec fn is_judgment(
    judgment: JevJudgment,
    backend: JevBackend,
    parsed: json::Tree,
    ids: Seq<Seq<char>>,
) -> bool {
    &&& judgment.probabilities@ == (match answered_probabilities(backend, parsed, ids) {
        Ok(list) => list,
        Err(_) => Seq::empty(),
    })
    &&& judgment.input_tokens == (match backend {
        JevBackend::Typesafe => reported(parsed, "input_tokens"@, "__unused__"@),
        JevBackend::Vercel => reported(parsed, "__unused__"@, "inputTokens"@),
    })
    &&& judgment.output_tokens == (match backend {
        JevBackend::Typesafe => reported(parsed, "output_tokens"@, "__unused__"@),
        JevBackend::Vercel => reported(parsed, "__unused__"@, "outputTokens"@),
    })
    &&& message::opt_text(judgment.model) == named_model(parsed)
}

/// Reads a response. One whose answers are rejected still reports its usage and
/// model; it then has no probabilities.
pub fn parse_judgment(backend: JevBackend, parsed: &Json, ids: &Vec<String>) -> (r: JevJudgment)
    ensures
        is_judgment(r, backend, parsed@, text::texts(ids@)),
{
    let probabilities: Vec<u64> = match parse_answer_probabilities(backend, parsed, ids) {
        Ok(list) => list,
        Err(_) => Vec::new(),
    };
    let input_tokens: Option<u64> = match backend {
        JevBackend::Typesafe => usage_tokens(parsed, "input_tokens", "__unused__"),
        JevBackend::Vercel => usage_tokens(parsed, "__unused__", "inputTokens"),
    };
    let output_tokens: Option<u64> = match backend {
        JevBackend::Typesafe => usage_tokens(parsed, "output_tokens", "__unused__"),
        JevBackend::Vercel => usage_tokens(parsed, "__unused__", "outputTokens"),
    };
    let named = match parsed.get("model") {
        Some(model) => model.as_str(),
        None => parsed.str_at("modelId"),
    };
    let model: Option<String> = match named {
        Some(name) => Some(name.to_owned()),
        None => None,
    };
    JevJudgment { probabilities, input_tokens, output_tokens, model }
}

/// How much of a refusal's text is shown.
pub const REFUSAL_CHARS: usize = 200;

/// Why the answer of an endpoint is no response: it is too long, it is a refusal,
/// or it is no JSON.
pub open spec fn response_fault(status: u16, bytes: Seq<u8>) -> Option<Seq<char>> {
    if bytes.len() > MAX_RESPONSE_BYTES {
        Some("response exceeds 1048576 bytes"@)
    } else if status < 200 || status >= 300 {
        Some(
            "http "@ + text::decimal(status as nat) + ": "@ + text::first_chars(
                text::lossy(bytes),
                REFUSAL_CHARS as int,
            ),
        )
    } else {
        match json::parsed_bytes(bytes) {
            Ok(_) => None,
            Err(message) => Some(message),
        }
    }
}

/// Reads the answer of an endpoint.
pub fn read_response(backend: JevBackend, status: u16, bytes: &Vec<u8>, ids: &Vec<String>) -> (r:
    Result<JevJudgment, String>)
    ensures
        (match (r, response_fault(status, bytes@)) {
            (Ok(judgment), None) => json::parsed_bytes(bytes@) matches Ok(tree) && is_judgment(
                judgment,
                backend,
                tree,
                text::texts(ids@),
            ),
            (Err(message), Some(words)) => message@ == words,
            _ => false,
        }),
{
    if bytes.len() as u64 > MAX_RESPONSE_BYTES {
        return Err("response exceeds 1048576 bytes".to_owned());
    }
    if status < 200 || status >= 300 {
        let mut words = "http ".to_owned();
        words.append(text::decimal_of(status as u64).as_str());
        words.append(": ");
        let shown = text::lossy_text(bytes.as_slice());
        words.append(text::first_chars_of(shown.as_str(), REFUSAL_CHARS).as_str());
        return Err(words);
    }
    match json::parse_bytes(bytes.as_slice()) {
        Ok(parsed) => Ok(parse_judgment(backend, &parsed, ids)),
        Err(message) => Err(message),
    }
}

} // verus!
