//! Inference backends: what the virtual machine asks of a language model.
use vstd::prelude::*;
use vstd::utf8::{encode_utf8, is_char_boundary, valid_utf8};
use crate::ast::strings_view;

verus! {

/// Why a backend could not answer.
#[derive(Debug)]
pub struct BackendError {
    pub message: String,
}

/// A label with its confidence `num / den` (zero when `den` is zero).
#[derive(Debug)]
pub struct Score {
    pub label: String,
    pub num: u64,
    pub den: u64,
}

/// A confidence `num / den` for a label, as a backend answered it.
pub struct ScoreV {
    pub label: Seq<char>,
    pub num: u64,
    pub den: u64,
}

/// What the machine asked the backend.
pub enum Request {
    /// Classify the prompt against the labels.
    Classify(Seq<char>, Seq<Seq<char>>),
    /// Compress the text.
    Compress(Seq<char>),
    /// Carry out the action.
    Act(Seq<char>),
    /// Query the named oracle with the arguments.
    Oracle(Seq<char>, Seq<Seq<char>>),
}

/// What the backend answered: a text or scores, or a failure with its message.
pub enum Reply {
    Text(Result<Seq<char>, Seq<char>>),
    Scores(Result<Seq<ScoreV>, Seq<char>>),
}


pub open spec fn text_result(r: Result<String, BackendError>) -> Result<Seq<char>, Seq<char>> {
    match r {
        Ok(s) => Ok(s@),
        Err(e) => Err(e.message@),
    }
}

pub open spec fn score_view(s: Score) -> ScoreV {
    ScoreV { label: s.label@, num: s.num, den: s.den }
}

pub open spec fn scores_view(v: Seq<Score>) -> Seq<ScoreV> {
    v.map_values(|s: Score| score_view(s))
}

pub open spec fn scores_result(r: Result<Vec<Score>, BackendError>) -> Result<Seq<ScoreV>, Seq<char>> {
    match r {
        Ok(v) => Ok(scores_view(v@)),
        Err(e) => Err(e.message@),
    }
}

/// What the virtual machine asks of a language model. Each call may fail,
/// and nothing is assumed of what a backend answers beyond `answered`.
///
/// `answered(request, reply)` says that the backend may give `reply` to
/// `request`; each method ensures it of its own arguments and result. A
/// backend that keeps the default (`true`) claims nothing about its
/// answers, and its methods meet their contracts whatever they return.
pub trait InferenceBackend {
    /// Whether the backend may answer `request` with `reply`.
    open spec fn answered(&self, request: Request, reply: Reply) -> bool {
        true
    }

    /// A completion for the prompt.
    fn infer(&self, prompt: &str) -> Result<String, BackendError>;

    /// The prompt classified against `labels`: a confidence per label.
    fn classify(&self, prompt: &str, labels: &Vec<String>) -> (r: Result<Vec<Score>, BackendError>)
        ensures
            self.answered(Request::Classify(prompt@, strings_view(labels@)), Reply::Scores(scores_result(r)));

    /// A shorter text for `text`, to reclaim token budget (`ctx_compress`).
    fn compress(&self, text: &str) -> (r: Result<String, BackendError>)
        ensures
            self.answered(Request::Compress(text@), Reply::Text(text_result(r)));

    /// Carries out the action described by `payload`; returns its result.
    fn act(&self, payload: &str) -> (r: Result<String, BackendError>)
        ensures
            self.answered(Request::Act(payload@), Reply::Text(text_result(r)));

    /// Queries the external oracle `name` with the given arguments.
    fn oracle(&self, name: &str, args: &Vec<String>) -> (r: Result<String, BackendError>)
        ensures
            self.answered(Request::Oracle(name@, strings_view(args@)), Reply::Text(text_result(r)));
}

/// Half the length of the text's UTF-8 encoding, rounded down.
pub open spec fn half_bytes(text: Seq<char>) -> int {
    ((encode_utf8(text).len() as usize) / 2) as int
}

/// A deterministic backend for tests: it calls no model.
pub struct SimulatedBackend {
    fixed_response: String,
}

impl SimulatedBackend {
    /// The answer that `infer` gives to every prompt.
    pub closed spec fn fixed(&self) -> Seq<char> {
        self.fixed_response@
    }

    /// A backend whose completions are all `fixed_response`.
    pub fn new(fixed_response: &str) -> (r: Self)
        ensures
            r.fixed() == fixed_response@,
    {
        SimulatedBackend { fixed_response: fixed_response.to_owned() }
    }
}

fn copy_string(s: &String) -> (r: String)
    ensures
        r@ == s@,
{
    s.clone()
}

/// The longest prefix of `bytes`, at most `h` bytes long, that ends on a
/// character boundary.
pub open spec fn boundary_at_most(bytes: Seq<u8>, h: int) -> int
    decreases h,
{
    if h <= 0 {
        0
    } else if is_char_boundary(bytes, h) {
        h
    } else {
        boundary_at_most(bytes, h - 1)
    }
}

/// What the simulated `compress` keeps of `text`: the bytes of its encoding
/// up to the last character boundary at or before half of them.
pub open spec fn compressed_bytes(text: Seq<char>) -> Seq<u8> {
    encode_utf8(text).subrange(0, boundary_at_most(encode_utf8(text), half_bytes(text)))
}

/// The uniform scores over `labels`: each gets confidence `1 / n`.
pub open spec fn uniform_scores(labels: Seq<Seq<char>>) -> Seq<ScoreV> {
    Seq::new(labels.len(), |i: int| ScoreV { label: labels[i], num: 1, den: labels.len() as u64 })
}

impl InferenceBackend for SimulatedBackend {
    /// The simulated backend never fails: it classifies uniformly, keeps the
    /// first half of a text, echoes an action and names an oracle.
    open spec fn answered(&self, request: Request, reply: Reply) -> bool {
        match request {
            Request::Classify(_, labels) => reply == Reply::Scores(Ok(uniform_scores(labels))),
            Request::Compress(text) => reply matches Reply::Text(Ok(t)) && encode_utf8(t) == compressed_bytes(text),
            Request::Act(payload) => reply == Reply::Text(Ok(payload)),
            Request::Oracle(name, _) => reply == Reply::Text(Ok("<oracle:"@ + name + ">"@)),
        }
    }

    /// Always the fixed response.
    fn infer(&self, prompt: &str) -> (r: Result<String, BackendError>)
        ensures
            r matches Ok(s) && s@ == self.fixed(),
    {
        Ok(copy_string(&self.fixed_response))
    }

    /// A uniform distribution: each label gets confidence `1 / n` (see
    /// [`uniform_scores`]).
    fn classify(&self, prompt: &str, labels: &Vec<String>) -> (r: Result<Vec<Score>, BackendError>) {
        let n = labels.len() as u64;
        let mut out: Vec<Score> = Vec::new();
        let mut i: usize = 0;
        while i < labels.len()
            invariant
                i <= labels.len(),
                n == labels.len(),
                out.len() == i,
                forall|k: int|
                    0 <= k < i ==> #[trigger] out@[k].label@ == labels@[k]@ && out@[k].num == 1 && out@[k].den
                        == n,
            decreases labels.len() - i,
        {
            out.push(Score { label: copy_string(&labels[i]), num: 1, den: n });
            i = i + 1;
        }
        assert(scores_view(out@) =~= uniform_scores(strings_view(labels@)));
        Ok(out)
    }

    /// The first half of the text's bytes, cut back to the last character
    /// boundary at or before the half.
    fn compress(&self, text: &str) -> (r: Result<String, BackendError>)
        ensures
            r matches Ok(s) && encode_utf8(s@) == compressed_bytes(text@),
    {
        proof {
            vstd::utf8::encode_utf8_valid_utf8(text@);
        }
        let half = text.len() / 2;
        let mut h = half;
        while h > 0 && !text.is_char_boundary(h)
            invariant
                h <= half,
                half == half_bytes(text@),
                half <= text@.len() || half <= encode_utf8(text@).len(),
                valid_utf8(encode_utf8(text@)),
                boundary_at_most(encode_utf8(text@), h as int) == boundary_at_most(encode_utf8(text@), half as int),
            decreases h,
        {
            h = h - 1;
        }
        assert(is_char_boundary(encode_utf8(text@), h as int));
        assert(boundary_at_most(encode_utf8(text@), h as int) == h);
        let (head, _) = text.split_at(h);
        Ok(head.to_owned())
    }

    /// Echoes the payload.
    fn act(&self, payload: &str) -> (r: Result<String, BackendError>)
        ensures
            r matches Ok(s) && s@ == payload@,
    {
        Ok(payload.to_owned())
    }

    /// `<oracle:NAME>`, whatever the arguments.
    fn oracle(&self, name: &str, args: &Vec<String>) -> (r: Result<String, BackendError>)
        ensures
            r matches Ok(s) && s@ == "<oracle:"@ + name@ + ">"@,
    {
        let mut out = String::from_str("<oracle:");
        out.append(name);
        out.append(">");
        Ok(out)
    }
}

// ── Requests to a language model and what its replies give ─────────────────

/// The lower-case mapping of a text, as `str::to_lowercase` computes it.
pub uninterp spec fn lowercase(s: Seq<char>) -> Seq<char>;

/// Whether `c` has the Unicode `White_Space` property (the characters that
/// `char::is_whitespace` accepts).
pub open spec fn white_space(c: char) -> bool {
    let n = c as u32;
    ||| 0x9 <= n <= 0xd
    ||| n == 0x20
    ||| n == 0x85
    ||| n == 0xa0
    ||| n == 0x1680
    ||| 0x2000 <= n <= 0x200a
    ||| n == 0x2028
    ||| n == 0x2029
    ||| n == 0x202f
    ||| n == 0x205f
    ||| n == 0x3000
}

/// The text without its leading white space.
pub open spec fn trim_start(s: Seq<char>) -> Seq<char>
    decreases s.len(),
{
    if s.len() > 0 && white_space(s[0]) {
        trim_start(s.drop_first())
    } else {
        s
    }
}

/// The text without its trailing white space.
pub open spec fn trim_end(s: Seq<char>) -> Seq<char>
    decreases s.len(),
{
    if s.len() > 0 && white_space(s.last()) {
        trim_end(s.drop_last())
    } else {
        s
    }
}

/// A text without its leading and trailing white space.
pub open spec fn trimmed(s: Seq<char>) -> Seq<char> {
    trim_end(trim_start(s))
}

/// `str::to_lowercase`: the text in lower case; the result is named
/// [`lowercase`] and nothing more is claimed of it.
#[verifier::external_body]
fn to_lowercase(s: &str) -> (r: String)
    ensures
        r@ == lowercase(s@),
{
    s.to_lowercase()
}

/// Whether `c` is white space (see [`white_space`]).
fn is_white_space(c: char) -> (r: bool)
    ensures
        r == white_space(c),
{
    let n = c as u32;
    (0x9 <= n && n <= 0xd) || n == 0x20 || n == 0x85 || n == 0xa0 || n == 0x1680 || (0x2000 <= n && n <= 0x200a)
        || n == 0x2028 || n == 0x2029 || n == 0x202f || n == 0x205f || n == 0x3000
}

/// The text without its leading and trailing white space (see [`trimmed`]).
pub fn trim(s: &str) -> (r: String)
    ensures
        r@ == trimmed(s@),
{
    let v = crate::text::chars_of(s);
    let n = v.len();
    let ghost t = s@;
    let mut i: usize = 0;
    assert(t.subrange(0, n as int) =~= t);
    while i < n && is_white_space(v[i])
        invariant
            v@ == t,
            n == t.len(),
            i <= n,
            trim_start(t) == trim_start(t.subrange(i as int, n as int)),
        decreases n - i,
    {
        assert(t.subrange(i as int, n as int).drop_first() =~= t.subrange(i + 1, n as int));
        i = i + 1;
    }
    assert(trim_start(t) == t.subrange(i as int, n as int));
    let mut j: usize = n;
    while j > i && is_white_space(v[j - 1])
        invariant
            v@ == t,
            n == t.len(),
            i <= j <= n,
            trim_end(t.subrange(i as int, n as int)) == trim_end(t.subrange(i as int, j as int)),
        decreases j,
    {
        assert(t.subrange(i as int, j as int).drop_last() =~= t.subrange(i as int, j - 1));
        j = j - 1;
    }
    assert(trim_end(t.subrange(i as int, j as int)) == t.subrange(i as int, j as int));
    crate::text::chars_to_string(&v, i, j)
}

/// The labels, separated by `, `.
pub open spec fn comma_list(ls: Seq<Seq<char>>) -> Seq<char>
    decreases ls.len(),
{
    if ls.len() == 0 {
        Seq::empty()
    } else if ls.len() == 1 {
        ls[0]
    } else {
        comma_list(ls.drop_last()) + ", "@ + ls.last()
    }
}

/// The prompt that asks a model to classify `text` against `labels`.
pub open spec fn classify_prompt_text(text: Seq<char>, labels: Seq<Seq<char>>) -> Seq<char> {
    "Classify the following text. Reply with ONLY one of these labels: "@ + comma_list(labels) + "\n\nText: "@
        + text
}

/// The prompt that asks a model to shorten `text`.
pub open spec fn compress_prompt_text(text: Seq<char>) -> Seq<char> {
    "Summarise the following text in half the number of words. Reply with ONLY the summary, no preamble.\n\n"@
        + text
}

/// The prompt a model backend sends to classify `text`; none when there is
/// no label to choose from (the scores are then empty, and no model is
/// asked).
pub fn classify_request(text: &str, labels: &Vec<String>) -> (r: Option<String>)
    ensures
        r is None <==> labels.len() == 0,
        r matches Some(p) ==> p@ == classify_prompt_text(text@, labels@.map_values(|l: String| l@)),
{
    let ghost lv = labels@.map_values(|l: String| l@);
    if labels.len() == 0 {
        return None;
    }
    let mut list = String::new();
    let mut i: usize = 0;
    assert(lv.subrange(0, 0) =~= Seq::<Seq<char>>::empty());
    while i < labels.len()
        invariant
            i <= labels.len(),
            lv == labels@.map_values(|l: String| l@),
            list@ == comma_list(lv.subrange(0, i as int)),
        decreases labels.len() - i,
    {
        assert(lv.subrange(0, i + 1).drop_last() =~= lv.subrange(0, i as int));
        assert(lv.subrange(0, i + 1).last() == labels@[i as int]@);
        if i > 0 {
            list.append(", ");
        } else {
            assert(lv.subrange(0, 1)[0] == labels@[0]@);
        }
        list.append(labels[i].as_str());
        i = i + 1;
    }
    assert(lv.subrange(0, labels.len() as int) =~= lv);
    let mut out = String::from_str("Classify the following text. Reply with ONLY one of these labels: ");
    out.append(list.as_str());
    out.append("\n\nText: ");
    out.append(text);
    Some(out)
}

/// The prompt a model backend sends to shorten `text`.
pub fn compress_request(text: &str) -> (r: String)
    ensures
        r@ == compress_prompt_text(text@),
{
    let mut out = String::from_str(
        "Summarise the following text in half the number of words. Reply with ONLY the summary, no preamble.\n\n",
    );
    out.append(text);
    out
}

/// The scores that a model's reply to a classification request gives:
/// confidence 1 for each label that is the reply, without its surrounding
/// white space and ignoring case; confidence 0 for the others.
pub fn reply_scores(reply: &str, labels: &Vec<String>) -> (r: Vec<Score>)
    ensures
        r.len() == labels.len(),
        forall|i: int|
            0 <= i < labels.len() ==> {
                &&& #[trigger] r@[i].label@ == labels@[i]@
                &&& r@[i].den == 1
                &&& r@[i].num == if lowercase(labels@[i]@) == lowercase(trimmed(reply@)) {
                    1u64
                } else {
                    0u64
                }
            },
{
    let t = trim(reply);
    let winner = to_lowercase(t.as_str());
    let mut out: Vec<Score> = Vec::new();
    let mut i: usize = 0;
    while i < labels.len()
        invariant
            i <= labels.len(),
            out.len() == i,
            winner@ == lowercase(trimmed(reply@)),
            forall|k: int|
                0 <= k < i ==> {
                    &&& #[trigger] out@[k].label@ == labels@[k]@
                    &&& out@[k].den == 1
                    &&& out@[k].num == if lowercase(labels@[k]@) == lowercase(trimmed(reply@)) {
                        1u64
                    } else {
                        0u64
                    }
                },
        decreases labels.len() - i,
    {
        let l = to_lowercase(labels[i].as_str());
        let num: u64 = if crate::text::str_eq(l.as_str(), winner.as_str()) {
            1
        } else {
            0
        };
        out.push(Score { label: copy_string(&labels[i]), num, den: 1 });
        i = i + 1;
    }
    out
}

} // verus!
