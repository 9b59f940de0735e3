//! The orchestrator's HTTP interface: which addresses are asked, and what replies mean.
pub mod fetcher;
pub mod plan;
pub mod slot;

use vstd::prelude::*;
use vstd::string::StrSliceExecFns;
use vstd::utf8::encode_scalar;
use vstd::utf8::encode_utf8;

use crate::text::chars_of;

verus! {

/// How long a request may take, in seconds.
pub const REQUEST_TIMEOUT_SECS: u64 = 600;

/// How many bytes of a refusal's body are kept.
pub const MAX_BODY_LEN: usize = 512;

/// `text` without the slashes at its end.
pub open spec fn without_trailing_slashes(text: Seq<char>) -> Seq<char>
    decreases text.len(),
{
    if text.len() > 0 && text.last() == '/' {
        without_trailing_slashes(text.drop_last())
    } else {
        text
    }
}

/// The address that request paths are appended to: `url` without slashes at its end.
pub fn base_url(url: &str) -> (res: String)
    ensures
        res@ == without_trailing_slashes(url@),
{
    let chars = chars_of(url);
    let mut end: usize = chars.len();
    assert(url@.take(end as int) =~= url@);
    while end > 0 && chars[end - 1] == '/'
        invariant
            chars@ == url@,
            end <= chars@.len(),
            without_trailing_slashes(url@) == without_trailing_slashes(
                url@.take(end as int),
            ),
        decreases end,
    {
        assert(url@.take(end as int).drop_last() =~= url@.take(end - 1));
        end = end - 1;
    }
    assert(url@.take(end as int) =~= url@.subrange(0, end as int));
    crate::text::string_of(&chars, 0, end)
}

/// `kept` is as much of `body` as fits in the bytes that are kept of a refusal.
pub open spec fn is_trimmed(body: Seq<char>, kept: Seq<char>) -> bool {
    &&& kept.len() <= body.len()
    &&& kept == body.take(kept.len() as int)
    &&& encode_utf8(kept).len() <= MAX_BODY_LEN
    &&& kept.len() < body.len() ==> encode_utf8(body.take((kept.len() + 1) as int)).len() > MAX_BODY_LEN
}

proof fn lemma_encode_push(chars: Seq<char>, c: char)
    ensures
        encode_utf8(chars.push(c)) == encode_utf8(chars) + encode_scalar(c as u32),
    decreases chars.len(),
{
    if chars.len() == 0 {
        assert(chars.push(c).drop_first() =~= Seq::<char>::empty());
        assert(encode_utf8(chars.push(c).drop_first()) =~= Seq::<u8>::empty());
        assert(encode_utf8(chars.push(c)) =~= encode_scalar(c as u32));
        assert(encode_utf8(chars) + encode_scalar(c as u32) =~= encode_scalar(c as u32));
    } else {
        lemma_encode_push(chars.drop_first(), c);
        assert(chars.push(c).drop_first() =~= chars.drop_first().push(c));
        assert(encode_utf8(chars.push(c)) =~= encode_utf8(chars) + encode_scalar(c as u32));
    }
}

/// How many bytes a character takes in UTF-8.
fn utf8_width(c: char) -> (res: usize)
    ensures
        res == encode_scalar(c as u32).len(),
        1 <= res <= 4,
{
    let code = c as u32;
    if code <= 0x7f {
        1
    } else if code <= 0x7ff {
        2
    } else if code <= 0xffff {
        3
    } else {
        4
    }
}

/// As many whole characters of a refusal's body as fit in the bytes that are kept.
pub fn trim_body(body: &str) -> (res: &str)
    ensures
        is_trimmed(body@, res@),
{
    if body.as_bytes().len() <= MAX_BODY_LEN {
        assert(body@.take(body@.len() as int) =~= body@);
        return body;
    }
    let chars = chars_of(body);
    let mut count: usize = 0;
    let mut bytes: usize = 0;
    proof {
        assert(body@.take(0) =~= Seq::<char>::empty());
        assert(encode_utf8(body@.take(0)).len() == 0);
    }
    while count < chars.len()
        invariant
            chars@ == body@,
            count <= chars@.len(),
            bytes == encode_utf8(body@.take(count as int)).len(),
            bytes <= MAX_BODY_LEN,
        decreases chars@.len() - count,
    {
        let width = utf8_width(chars[count]);
        proof {
            lemma_encode_push(body@.take(count as int), body@[count as int]);
            assert(body@.take(count + 1) =~= body@.take(count as int).push(body@[count as int]));
        }
        if bytes + width > MAX_BODY_LEN {
            assert(body@.take(count as int) =~= body@.subrange(0, count as int));
            return body.substring_char(0, count);
        }
        bytes = bytes + width;
        count = count + 1;
    }
    assert(body@.take(count as int) =~= body@);
    body
}

/// A base address has no slash at its end, is what the text starts with, and only slashes of
/// the text are missing from it.
pub proof fn base_url_drops_only_slashes(text: Seq<char>)
    ensures
        ({
            let base = without_trailing_slashes(text);
            &&& base.len() == 0 || base.last() != '/'
            &&& base.len() <= text.len()
            &&& base == text.take(base.len() as int)
            &&& forall|i: int| base.len() <= i < text.len() ==> text[i] == '/'
        }),
    decreases text.len(),
{
    if text.len() > 0 && text.last() == '/' {
        base_url_drops_only_slashes(text.drop_last());
        let base = without_trailing_slashes(text);
        assert(text.drop_last().take(base.len() as int) =~= text.take(base.len() as int));
        assert forall|i: int| base.len() <= i < text.len() implies text[i] == '/' by {
            if i < text.len() - 1 {
                assert(text.drop_last()[i] == '/');
            }
        }
    } else {
        assert(text =~= text.take(text.len() as int));
    }
}

/// A base address is its own base address.
pub proof fn base_url_is_idempotent(text: Seq<char>)
    ensures
        without_trailing_slashes(without_trailing_slashes(text)) == without_trailing_slashes(text),
{
    base_url_drops_only_slashes(text);
}

/// Only one text is a body's trimmed form, and a body that fits is kept whole.
pub proof fn trimming_is_unique(body: Seq<char>, a: Seq<char>, b: Seq<char>)
    requires
        is_trimmed(body, a),
        is_trimmed(body, b),
    ensures
        a == b,
        encode_utf8(body).len() <= MAX_BODY_LEN ==> a == body,
{
    lemma_prefix_is_shorter(body, (a.len() + 1) as nat, b.len());
    lemma_prefix_is_shorter(body, (b.len() + 1) as nat, a.len());
    lemma_prefix_is_shorter(body, (a.len() + 1) as nat, body.len());
    assert(body.take(body.len() as int) =~= body);
}

proof fn lemma_prefix_is_shorter(body: Seq<char>, short: nat, long: nat)
    ensures
        short <= long <= body.len() ==> encode_utf8(body.take(short as int)).len() <= encode_utf8(
            body.take(long as int),
        ).len(),
    decreases long,
{
    if short < long <= body.len() {
        lemma_prefix_is_shorter(body, short, (long - 1) as nat);
        lemma_encode_push(body.take(long - 1), body[long - 1]);
        assert(body.take(long as int) =~= body.take(long - 1).push(body[long - 1]));
    }
}

/// What to do with a reply's body.
#[derive(Clone, Copy, Debug, PartialEq, Eq, Structural)]
pub enum BodyUse {
    /// The body is the answer.
    Read,
    /// There is no such thing, which is an answer too.
    Absent,
    /// The request was refused; the body says why.
    Refuse,
}

/// A request that was answered with a status that is no success.
#[derive(Debug)]
pub struct HttpError {
    pub status: u16,
    pub url: String,
    pub body: String,
}

/// Whether an HTTP status code is a success.
pub open spec fn is_success(status: u16) -> bool {
    200 <= status < 300
}

/// What a reply means to a request whose answer must exist.
pub fn read_success_body(status: u16) -> (res: BodyUse)
    ensures
        res == if is_success(status) { BodyUse::Read } else { BodyUse::Refuse },
{
    if 200 <= status && status < 300 {
        BodyUse::Read
    } else {
        BodyUse::Refuse
    }
}

/// The error for a refused request: its address, the status, and what is kept of the body.
pub fn refused(status: u16, url: &str, body: &str) -> (res: HttpError)
    ensures
        res.status == status,
        res.url@ == url@,
        is_trimmed(body@, res.body@),
{
    HttpError { status, url: url.to_owned(), body: trim_body(body).to_owned() }
}

/// A status is a success just where it is one of the two hundreds; such a reply's body is read,
/// and any other is a refusal.
pub proof fn successes_are_the_two_hundreds(status: u16)
    ensures
        is_success(status) <==> status / 100 == 2,
{
}

/// What is kept of a body fits in 512 bytes, and one character more would not.
pub proof fn no_more_of_a_body_fits(body: Seq<char>, kept: Seq<char>)
    requires
        is_trimmed(body, kept),
    ensures
        encode_utf8(kept).len() <= 512,
        encode_utf8(body).len() <= 512 ==> kept == body,
        kept.len() <= body.len(),
        forall|i: int| 0 <= i < kept.len() ==> kept[i] == body[i],
        kept != body ==> encode_utf8(kept.push(body[kept.len() as int])).len() > 512,
{
    trimming_is_unique(body, kept, kept);
    if kept.len() < body.len() {
        assert(body.take((kept.len() + 1) as int) =~= kept.push(body[kept.len() as int]));
    } else {
        assert(body.take(kept.len() as int) =~= body);
    }
}

/// Slashes at its end make no difference to an address.
pub proof fn trailing_slashes_make_no_difference(text: Seq<char>)
    ensures
        without_trailing_slashes(text.push('/')) == without_trailing_slashes(text),
        text.len() > 0 && text.last() != '/' ==> without_trailing_slashes(text) == text,
{
    assert(text.push('/').drop_last() =~= text);
}

} // verus!
