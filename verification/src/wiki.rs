//! What wiki a run was measured against.
//!
//! Two rows with the same revision are about the same cut of the wiki, and a pass resumed against a
//! wiki that has moved is a different measurement rather than more of the same one. The revision is
//! a hash of the pages a walk reads.

use vstd::prelude::*;
use vstd::string::*;
use vstd::utf8::*;

use crate::counting;

verus! {

/// A page: its path under the wiki, and what it says.
pub struct Page {
    pub name: String,
    pub text: String,
}

/// What a page says.
#[verifier::ext_equal]
pub struct PageView {
    pub name: Seq<char>,
    pub text: Seq<char>,
}

impl View for Page {
    type V = PageView;

    open spec fn view(&self) -> PageView {
        PageView { name: self.name@, text: self.text@ }
    }
}

pub open spec fn page_views(pages: Seq<Page>) -> Seq<PageView> {
    pages.map_values(|page: Page| page@)
}

/// The hash of bytes, in hexadecimal.
pub uninterp spec fn sha256(bytes: Seq<u8>) -> Seq<char>;

/// A text of sixty-four lower-case hexadecimal digits.
pub open spec fn is_digest(hex: Seq<char>) -> bool {
    &&& hex.len() == 64
    &&& forall|i: int|
        0 <= i < hex.len() ==> '0' <= #[trigger] hex[i] <= '9' || 'a' <= hex[i] <= 'f'
}

/// `sha2::Sha256::digest`, written as sixty-four lower-case hexadecimal digits: what comes out
/// depends on the bytes alone.
#[verifier::external_body]
pub(crate) fn hash(bytes: &Vec<u8>) -> (hex: String)
    ensures
        hex@ == sha256(bytes@),
        is_digest(hex@),
{
    format!("{:x}", <sha2::Sha256 as sha2::Digest>::digest(bytes.as_slice()))
}

/// What is hashed of pages: the name of each as well as its text, since a page renamed is a
/// different wiki, each ended by a zero byte so that no name and text run into the next.
pub open spec fn framed(pages: Seq<PageView>) -> Seq<u8>
    decreases pages.len(),
{
    if pages.len() == 0 {
        Seq::empty()
    } else {
        ended(
            ended(framed(pages.drop_last()), encode_utf8(pages.last().name)),
            encode_utf8(pages.last().text),
        )
    }
}

/// Bytes with more after them, and a zero byte at the end.
pub open spec fn ended(bytes: Seq<u8>, more: Seq<u8>) -> Seq<u8> {
    (bytes + more).push(0u8)
}

/// The revision of a wiki with these pages.
pub open spec fn revision_of(pages: Seq<PageView>) -> Seq<char> {
    "sha256:"@ + sha256(framed(pages))
}

pub const NO_REVISION: &'static str =
    ": no markdown or text pages under it, so it has no revision";

fn put(bytes: &mut Vec<u8>, text: &str)
    ensures
        final(bytes)@ == ended(old(bytes)@, encode_utf8(text@)),
{
    let more: Vec<u8> = text.as_bytes_vec();
    let ghost was = bytes@;
    for i in 0..more.len()
        invariant
            bytes@ == was + more@.take(i as int),
    {
        bytes.push(more[i]);
        assert(bytes@ =~= was + more@.take(i + 1));
    }
    assert(more@.take(more.len() as int) =~= more@);
    bytes.push(0);
}

/// The revision of a wiki: `sha256:` and the hash of every page under it, in the order the walk
/// reads them. A directory with no pages is not a wiki, and has no revision to record.
pub fn revision(wiki: &str, pages: &Vec<Page>) -> (revision: Result<String, String>)
    ensures
        match revision {
            Ok(revision) => pages.len() > 0 && revision@ == revision_of(page_views(pages@))
                && is_digest(sha256(framed(page_views(pages@)))),
            Err(message) => pages.len() == 0 && message@ == wiki@ + NO_REVISION@,
        },
{
    if pages.len() == 0 {
        let mut message: String = wiki.to_owned();
        message.append(NO_REVISION);
        return Err(message);
    }
    let ghost all = page_views(pages@);
    let mut bytes: Vec<u8> = Vec::new();
    for i in 0..pages.len()
        invariant
            all == page_views(pages@),
            bytes@ == framed(all.take(i as int)),
    {
        proof {
            counting::one_more(all, i as int);
            assert(all[i as int] == pages@[i as int]@);
        }
        put(&mut bytes, pages[i].name.as_str());
        put(&mut bytes, pages[i].text.as_str());
    }
    proof {
        counting::take_all(all);
    }
    let mut revision: String = "sha256:".to_owned();
    revision.append(hash(&bytes).as_str());
    Ok(revision)
}

/// Whether bytes hold no zero.
pub open spec fn no_zero(bytes: Seq<u8>) -> bool {
    forall|i: int| 0 <= i < bytes.len() ==> #[trigger] bytes[i] != 0
}

proof fn an_end_is_found(a: Seq<u8>, x: Seq<u8>, b: Seq<u8>, y: Seq<u8>)
    requires
        no_zero(x),
        no_zero(y),
        a.len() > 0 ==> a.last() == 0,
        b.len() > 0 ==> b.last() == 0,
        ended(a, x) == ended(b, y),
    ensures
        a == b,
        x == y,
{
    let whole = ended(a, x);
    let n = whole.len();
    assert(n == a.len() + x.len() + 1 && n == b.len() + y.len() + 1);
    if a.len() > b.len() {
        assert(whole[a.len() - 1] == a.last());
        assert(ended(b, y)[a.len() - 1] == y[a.len() - 1 - b.len()]);
    }
    if b.len() > a.len() {
        assert(ended(b, y)[b.len() - 1] == b.last());
        assert(whole[b.len() - 1] == x[b.len() - 1 - a.len()]);
    }
    assert forall|i: int| 0 <= i < a.len() implies a[i] == b[i] by {
        assert(whole[i] == a[i] && ended(b, y)[i] == b[i]);
    }
    assert(a =~= b);
    assert forall|i: int| 0 <= i < x.len() implies x[i] == y[i] by {
        assert(whole[a.len() + i] == x[i] && ended(b, y)[a.len() + i] == y[i]);
    }
    assert(x =~= y);
}

proof fn one_encoding(a: Seq<char>, b: Seq<char>)
    requires
        encode_utf8(a) == encode_utf8(b),
    ensures
        a == b,
{
    encode_utf8_decode_utf8(a);
    encode_utf8_decode_utf8(b);
}

/// Two wikis whose names and texts hold no zero byte are hashed from the same bytes only where they
/// are the same pages: one edited, added, removed or renamed is another cut.
pub proof fn pages_are_told_apart(a: Seq<PageView>, b: Seq<PageView>)
    requires
        forall|i: int|
            0 <= i < a.len() ==> no_zero(encode_utf8((#[trigger] a[i]).name)) && no_zero(
                encode_utf8(a[i].text),
            ),
        forall|i: int|
            0 <= i < b.len() ==> no_zero(encode_utf8((#[trigger] b[i]).name)) && no_zero(
                encode_utf8(b[i].text),
            ),
        framed(a) == framed(b),
    ensures
        a == b,
    decreases a.len(),
{
    if a.len() == 0 || b.len() == 0 {
        assert(a.len() > 0 ==> framed(a).len() > 0);
        assert(b.len() > 0 ==> framed(b).len() > 0);
        assert(a =~= b);
    } else {
        let (p, q) = (a.last(), b.last());
        assert(a[a.len() - 1] == p && b[b.len() - 1] == q);
        let (x, y) = (framed(a.drop_last()), framed(b.drop_last()));
        an_end_is_found(
            ended(x, encode_utf8(p.name)),
            encode_utf8(p.text),
            ended(y, encode_utf8(q.name)),
            encode_utf8(q.text),
        );
        an_end_is_found(x, encode_utf8(p.name), y, encode_utf8(q.name));
        one_encoding(p.name, q.name);
        one_encoding(p.text, q.text);
        pages_are_told_apart(a.drop_last(), b.drop_last());
        assert(a =~= a.drop_last().push(p));
        assert(b =~= b.drop_last().push(q));
    }
}

/// A revision follows the content: where the hash tells the two framings apart, two wikis whose
/// names and texts hold no zero byte have the same revision just where they hold the same pages.
pub proof fn a_revision_follows_the_content(a: Seq<PageView>, b: Seq<PageView>)
    requires
        forall|i: int|
            0 <= i < a.len() ==> no_zero(encode_utf8((#[trigger] a[i]).name)) && no_zero(
                encode_utf8(a[i].text),
            ),
        forall|i: int|
            0 <= i < b.len() ==> no_zero(encode_utf8((#[trigger] b[i]).name)) && no_zero(
                encode_utf8(b[i].text),
            ),
        sha256(framed(a)) == sha256(framed(b)) ==> framed(a) == framed(b),
    ensures
        revision_of(a) == revision_of(b) <==> a == b,
{
    if revision_of(a) == revision_of(b) {
        let n = "sha256:"@.len() as int;
        assert(revision_of(a).skip(n) =~= sha256(framed(a)));
        assert(revision_of(b).skip(n) =~= sha256(framed(b)));
        pages_are_told_apart(a, b);
    }
}

} // verus!
