//! Pages made of a fixed frame and a piece of content, which is put in as
//! it is or with its markup escaped.

use vstd::prelude::*;
use vstd::string::StringExecFns;

verus! {

/// The content of a page.
pub struct RenderContent {
    pub content: String,
}

/// The frame before the content.
pub open spec fn page_head() -> Seq<char> {
    "<html>\n  <head>\n    <title>CCH23 Day 14</title>\n  </head>\n  <body>\n    "@
}

/// The frame after the content.
pub open spec fn page_foot() -> Seq<char> {
    "\n  </body>\n</html>"@
}

/// What stands for a character in escaped text: an entity for `&`, `<`, `>`,
/// `"`, `'` and `/`, the character itself for every other.
pub open spec fn escaped_char(c: char) -> Seq<char> {
    if c == '&' {
        "&amp;"@
    } else if c == '<' {
        "&lt;"@
    } else if c == '>' {
        "&gt;"@
    } else if c == '"' {
        "&quot;"@
    } else if c == '\'' {
        "&#x27;"@
    } else if c == '/' {
        "&#x2F;"@
    } else {
        seq![c]
    }
}

/// The text with every character escaped.
pub open spec fn escaped(text: Seq<char>) -> Seq<char>
    decreases text.len(),
{
    if text.len() == 0 {
        Seq::empty()
    } else {
        escaped_char(text[0]) + escaped(text.drop_first())
    }
}

/// The text with every occurrence of `from` replaced by `to`, the
/// occurrences being found from left to right and not overlapping.
pub open spec fn replaced(text: Seq<char>, from: Seq<char>, to: Seq<char>) -> Seq<char>
    decreases text.len(),
{
    if text.len() == 0 {
        Seq::empty()
    } else if 0 < from.len() <= text.len() && text.take(from.len() as int) == from {
        to + replaced(text.skip(from.len() as int), from, to)
    } else {
        seq![text[0]] + replaced(text.drop_first(), from, to)
    }
}

/// What stands for a character in text whose markup is escaped and whose
/// slashes are kept: an entity for `&`, `<`, `>`, `"` and `'`, the character
/// itself for every other.
pub open spec fn sanitized_char(c: char) -> Seq<char> {
    if c == '/' {
        seq![c]
    } else {
        escaped_char(c)
    }
}

/// The text with its markup escaped and its slashes kept.
pub open spec fn sanitized(text: Seq<char>) -> Seq<char>
    decreases text.len(),
{
    if text.len() == 0 {
        Seq::empty()
    } else {
        sanitized_char(text[0]) + sanitized(text.drop_first())
    }
}

/// Whether `from`, laid over `chunk` from place `p` on, differs from it at
/// its place `q`, which still lies in `chunk`.
spec fn differs_at(chunk: Seq<char>, from: Seq<char>, p: int, q: int) -> bool {
    0 <= q < from.len() && p + q < chunk.len() && chunk[p + q] != from[q]
}

/// Whether `from` starts at no place of `chunk`, whatever follows `chunk`.
spec fn starts_nowhere(chunk: Seq<char>, from: Seq<char>, p: int) -> bool {
    exists|q: int| differs_at(chunk, from, p, q)
}

spec fn differs_within(chunk: Seq<char>, from: Seq<char>) -> bool {
    forall|p: int| 0 <= p < chunk.len() ==> #[trigger] starts_nowhere(chunk, from, p)
}

proof fn lemma_chunk_is_kept(chunk: Seq<char>, tail: Seq<char>, from: Seq<char>, to: Seq<char>)
    requires
        differs_within(chunk, from),
    ensures
        replaced(chunk + tail, from, to) == chunk + replaced(tail, from, to),
    decreases chunk.len(),
{
    if chunk.len() == 0 {
        assert(chunk + tail =~= tail);
        assert(chunk + replaced(tail, from, to) =~= replaced(tail, from, to));
    } else {
        let whole = chunk + tail;
        assert(starts_nowhere(chunk, from, 0));
        let q = choose|q: int| differs_at(chunk, from, 0, q);
        if from.len() <= whole.len() {
            assert(whole.take(from.len() as int)[q] == chunk[q]);
            assert(whole.take(from.len() as int) != from);
        }
        assert(whole.drop_first() =~= chunk.drop_first() + tail);
        assert forall|p: int| 0 <= p < chunk.drop_first().len() implies #[trigger] starts_nowhere(
            chunk.drop_first(),
            from,
            p,
        ) by {
            let next = p + 1;
            assert(starts_nowhere(chunk, from, next));
            let r = choose|r: int| differs_at(chunk, from, next, r);
            assert(chunk.drop_first()[p + r] == chunk[(p + 1) + r]);
            assert(differs_at(chunk.drop_first(), from, p, r));
        }
        lemma_chunk_is_kept(chunk.drop_first(), tail, from, to);
        assert(seq![whole[0]] + (chunk.drop_first() + replaced(tail, from, to)) =~= chunk + replaced(
            tail,
            from,
            to,
        ));
    }
}

proof fn lemma_entity_is_kept(c: char)
    requires
        c != '/',
    ensures
        differs_within(escaped_char(c), "&#x2F;"@),
{
    reveal_strlit("&amp;");
    reveal_strlit("&lt;");
    reveal_strlit("&gt;");
    reveal_strlit("&quot;");
    reveal_strlit("&#x27;");
    reveal_strlit("&#x2F;");
    let chunk = escaped_char(c);
    let from = "&#x2F;"@;
    assert forall|p: int| 0 <= p < chunk.len() implies #[trigger] starts_nowhere(chunk, from, p) by {
        if p == 0 {
            if c == '\'' {
                assert(differs_at(chunk, from, p, 4));
            } else if c == '&' || c == '<' || c == '>' || c == '"' {
                assert(differs_at(chunk, from, p, 1));
            } else {
                assert(differs_at(chunk, from, p, 0));
            }
        } else {
            assert(differs_at(chunk, from, p, 0));
        }
    }
}

/// Escaping a text and then putting `/` back for `&#x2F;` gives the text
/// with its markup escaped and its slashes kept: the entity of the slash
/// occurs in escaped text only where a slash stood.
pub proof fn lemma_slashes_are_put_back(text: Seq<char>)
    ensures
        replaced(escaped(text), "&#x2F;"@, "/"@) == sanitized(text),
    decreases text.len(),
{
    let from = "&#x2F;"@;
    let to = "/"@;
    if text.len() > 0 {
        let tail = escaped(text.drop_first());
        lemma_slashes_are_put_back(text.drop_first());
        if text[0] == '/' {
            reveal_strlit("&#x2F;");
            reveal_strlit("/");
            let whole = from + tail;
            assert(whole.take(from.len() as int) =~= from);
            assert(whole.skip(from.len() as int) =~= tail);
            assert(to =~= seq!['/']);
        } else {
            lemma_entity_is_kept(text[0]);
            lemma_chunk_is_kept(escaped_char(text[0]), tail, from, to);
        }
    }
}

/// Calls `encode_safe` of the `html-escape` crate.
///
/// Trusted: the result is the text in which `&`, `<`, `>`, `"`, `'` and `/`
/// are replaced by `&amp;`, `&lt;`, `&gt;`, `&quot;`, `&#x27;` and `&#x2F;`,
/// and every other character is kept.
#[verifier::external_body]
fn encode_safe(text: &str) -> (encoded: String)
    ensures
        encoded@ == escaped(text@),
{
    html_escape::encode_safe(text).into_owned()
}

/// Calls `str::replace` of the standard library.
///
/// Trusted: the result is `text` with the occurrences of `from`, found from
/// left to right without overlap, replaced by `to`.
#[verifier::external_body]
fn replace(text: &str, from: &str, to: &str) -> (result: String)
    requires
        from@.len() > 0,
    ensures
        result@ == replaced(text@, from@, to@),
{
    text.replace(from, to)
}

fn frame(content: &str) -> (page: String)
    ensures
        page@ == page_head() + content@ + page_foot(),
{
    let mut page = String::from_str(
        "<html>\n  <head>\n    <title>CCH23 Day 14</title>\n  </head>\n  <body>\n    ",
    );
    page.append(content);
    page.append("\n  </body>\n</html>");
    page
}

impl RenderContent {
    /// The page with the content as it is.
    pub fn create_html(self) -> (page: String)
        ensures
            page@ == page_head() + self.content@ + page_foot(),
    {
        frame(self.content.as_str())
    }

    /// The page with the markup of the content escaped and its slashes
    /// kept.
    pub fn create_safe_html(self) -> (page: String)
        ensures
            page@ == page_head() + sanitized(self.content@) + page_foot(),
    {
        let encoded = encode_safe(self.content.as_str());
        proof {
            reveal_strlit("&#x2F;");
            lemma_slashes_are_put_back(self.content@);
        }
        let sanitized = replace(encoded.as_str(), "&#x2F;", "/");
        frame(sanitized.as_str())
    }
}

} // verus!
