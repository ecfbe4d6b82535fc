//! The fence around an untrusted document in a prompt.
//!
//! The document stands between two markers. A marker inside the document is replaced,
//! in any case of its letters, so the document cannot close its own fence.
use crate::text::{chars_of, lower, lower_char};
use vstd::prelude::*;
use vstd::string::*;
use vstd::utf8::encode_utf8;

verus! {

/// The marker that opens the fence.
pub const DSL_OPEN: &'static str = "<untrusted_dsl>";

/// The marker that closes the fence.
pub const DSL_CLOSE: &'static str = "</untrusted_dsl>";

/// What a marker inside the document is replaced by.
pub const DSL_MARKER_NEUTRALIZED: &'static str = "[marker]";

/// Whether a text has a marker at a position, in any case of its letters.
pub open spec fn marked_at(s: Seq<char>, i: int, marker: Seq<char>) -> bool {
    0 <= i && i + marker.len() <= s.len() && forall|k: int|
        0 <= k < marker.len() ==> lower(#[trigger] s[i + k]) == marker[k]
}

/// Whether a text has either marker at a position.
pub open spec fn any_marker_at(s: Seq<char>, i: int) -> bool {
    marked_at(s, i, DSL_OPEN@) || marked_at(s, i, DSL_CLOSE@)
}

/// A text with its markers replaced, from the left.
pub open spec fn neutralized(s: Seq<char>) -> Seq<char>
    decreases s.len(),
    via neutralized_shrinks
{
    if s.len() == 0 {
        Seq::empty()
    } else if marked_at(s, 0, DSL_CLOSE@) {
        DSL_MARKER_NEUTRALIZED@ + neutralized(s.skip(DSL_CLOSE@.len() as int))
    } else if marked_at(s, 0, DSL_OPEN@) {
        DSL_MARKER_NEUTRALIZED@ + neutralized(s.skip(DSL_OPEN@.len() as int))
    } else {
        seq![s[0]] + neutralized(s.skip(1))
    }
}

#[via_fn]
proof fn neutralized_shrinks(s: Seq<char>) {
    reveal_strlit("<untrusted_dsl>");
    reveal_strlit("</untrusted_dsl>");
}

/// The fence around a document.
pub open spec fn fenced(document: Seq<char>) -> Seq<char> {
    DSL_OPEN@ + "\n"@ + document + "\n"@ + DSL_CLOSE@
}

/// The document between the markers, as it is sent.
pub open spec fn sent_document(json: Seq<char>) -> Seq<char> {
    neutralized(json)
}

/// How many bytes the document takes as it is sent.
pub open spec fn sent_size(json: Seq<char>) -> nat {
    encode_utf8(sent_document(json)).len()
}

fn marked(s: &Vec<char>, i: usize, marker: &Vec<char>) -> (r: bool)
    requires
        i <= s@.len(),
    ensures
        r == marked_at(s@, i as int, marker@),
{
    if s.len() - i < marker.len() {
        return false;
    }
    for k in 0..marker.len()
        invariant
            i + marker.len() <= s.len(),
            forall|j: int| 0 <= j < k ==> lower(#[trigger] s@[i + j]) == marker@[j],
    {
        if lower_char(s[i + k]) != marker[k] {
            assert(lower(s@[i + k as int]) != marker@[k as int]);
            return false;
        }
    }
    true
}

proof fn lemma_shifted(s: Seq<char>, i: int, marker: Seq<char>)
    requires
        0 <= i <= s.len(),
    ensures
        marked_at(s.skip(i), 0, marker) == marked_at(s, i, marker),
{
    let t = s.skip(i);
    if marked_at(s, i, marker) {
        assert forall|k: int| 0 <= k < marker.len() implies lower(#[trigger] t[0 + k])
            == marker[k] by {
            assert(lower(s[i + k]) == marker[k]);
        }
    }
    if marked_at(t, 0, marker) {
        assert forall|k: int| 0 <= k < marker.len() implies lower(#[trigger] s[i + k])
            == marker[k] by {
            assert(lower(t[0 + k]) == marker[k]);
        }
    }
}

/// Replaces the markers in a text, so that it cannot close its own fence.
pub fn neutralize_dsl_markers(text: &str) -> (r: String)
    ensures
        r@ == neutralized(text@),
        forall|i: int| !#[trigger] any_marker_at(r@, i),
{
    let chars = chars_of(text);
    let open = chars_of(DSL_OPEN);
    let close = chars_of(DSL_CLOSE);
    let mut out = String::new();
    let mut i: usize = 0;
    proof {
        reveal_strlit("<untrusted_dsl>");
        reveal_strlit("</untrusted_dsl>");
        assert(chars@.skip(0) =~= chars@);
        assert(out@ + neutralized(chars@.skip(0)) =~= neutralized(chars@));
    }
    while i < chars.len()
        invariant
            i <= chars@.len(),
            chars@ == text@,
            open@ == DSL_OPEN@,
            close@ == DSL_CLOSE@,
            DSL_OPEN@.len() == 15,
            DSL_CLOSE@.len() == 16,
            out@ + neutralized(chars@.skip(i as int)) == neutralized(text@),
        decreases chars@.len() - i,
    {
        let ghost before = out@;
        let ghost rest = chars@.skip(i as int);
        proof {
            lemma_shifted(chars@, i as int, DSL_OPEN@);
            lemma_shifted(chars@, i as int, DSL_CLOSE@);
        }
        if marked(&chars, i, &close) {
            out.append(DSL_MARKER_NEUTRALIZED);
            i = i + close.len();
            assert(rest.skip(16) =~= chars@.skip(i as int));
        } else if marked(&chars, i, &open) {
            out.append(DSL_MARKER_NEUTRALIZED);
            i = i + open.len();
            assert(rest.skip(15) =~= chars@.skip(i as int));
        } else {
            out.push(chars[i]);
            i = i + 1;
            assert(rest.skip(1) =~= chars@.skip(i as int));
        }
        assert(out@ + neutralized(chars@.skip(i as int)) =~= before + neutralized(rest));
    }
    assert(out@ + neutralized(chars@.skip(i as int)) =~= out@);
    proof {
        law_no_marker_survives(text@);
    }
    out
}

/// The document as it is sent, from its JSON text.
pub fn rendered_dsl(json: &str) -> (r: String)
    ensures
        r@ == sent_document(json@),
{
    neutralize_dsl_markers(json)
}

// ---------------------------------------------------------------------------
// Laws.
// ---------------------------------------------------------------------------

/// What comes out without an opening bracket went in.
proof fn lemma_copied_prefix(s: Seq<char>, n: int)
    requires
        0 <= n <= neutralized(s).len(),
        forall|k: int| 0 <= k < n ==> #[trigger] neutralized(s)[k] != '[',
    ensures
        n <= s.len(),
        forall|k: int| 0 <= k < n ==> #[trigger] s[k] == neutralized(s)[k],
    decreases s.len(),
{
    reveal_strlit("<untrusted_dsl>");
    reveal_strlit("</untrusted_dsl>");
    reveal_strlit("[marker]");
    let out = neutralized(s);
    if n > 0 && s.len() > 0 {
        if marked_at(s, 0, DSL_CLOSE@) || marked_at(s, 0, DSL_OPEN@) {
            assert(out[0] == '[');
            assert(false);
        } else {
            let rest = s.skip(1);
            let tail = neutralized(rest);
            assert(out == seq![s[0]] + tail);
            assert forall|k: int| 0 <= k < n - 1 implies #[trigger] tail[k] != '[' by {
                assert(out[k + 1] == tail[k]);
            }
            lemma_copied_prefix(rest, n - 1);
            assert forall|k: int| 0 <= k < n implies #[trigger] s[k] == out[k] by {
                if k > 0 {
                    assert(rest[k - 1] == tail[k - 1]);
                }
            }
        }
    }
}

/// A marker has no brackets.
pub(crate) proof fn lemma_no_brackets(s: Seq<char>, i: int, marker: Seq<char>, k: int)
    requires
        marker == DSL_OPEN@ || marker == DSL_CLOSE@,
        marked_at(s, i, marker),
        0 <= k < marker.len(),
    ensures
        s[i + k] != '[',
        s[i + k] != ']',
        s[i + k] != '\n',
        marker.len() == 15 || marker.len() == 16,
{
    reveal_strlit("<untrusted_dsl>");
    reveal_strlit("</untrusted_dsl>");
    assert(lower(s[i + k]) == marker[k]);
}

/// A marker that stands in a text behind `n` characters stands in the rest.
proof fn lemma_marker_in_rest(s: Seq<char>, n: int, i: int, marker: Seq<char>)
    requires
        0 <= n <= i,
        n <= s.len(),
        marked_at(s, i, marker),
    ensures
        marked_at(s.skip(n), i - n, marker),
{
    let t = s.skip(n);
    assert forall|k: int| 0 <= k < marker.len() implies lower(#[trigger] t[i - n + k])
        == marker[k] by {
        assert(lower(s[i + k]) == marker[k]);
    }
}

pub(crate) proof fn lemma_marker_survives_nowhere(s: Seq<char>, i: int, marker: Seq<char>)
    requires
        marker == DSL_OPEN@ || marker == DSL_CLOSE@,
    ensures
        !marked_at(neutralized(s), i, marker),
    decreases s.len(),
{
    reveal_strlit("<untrusted_dsl>");
    reveal_strlit("</untrusted_dsl>");
    reveal_strlit("[marker]");
    let out = neutralized(s);
    if marked_at(out, i, marker) {
        if s.len() == 0 {
            assert(false);
        } else if marked_at(s, 0, DSL_CLOSE@) || marked_at(s, 0, DSL_OPEN@) {
            let n = if marked_at(s, 0, DSL_CLOSE@) {
                16int
            } else {
                15int
            };
            let tail = neutralized(s.skip(n));
            assert(out == DSL_MARKER_NEUTRALIZED@ + tail);
            if i == 0 {
                lemma_no_brackets(out, i, marker, 0);
                assert(out[0] == '[');
            } else if i < 8 {
                lemma_no_brackets(out, i, marker, 7 - i);
                assert(out[7] == ']');
            } else {
                lemma_marker_in_rest(out, 8, i, marker);
                assert(out.skip(8) =~= tail);
                lemma_marker_survives_nowhere(s.skip(n), i - 8, marker);
            }
        } else {
            let tail = neutralized(s.skip(1));
            assert(out == seq![s[0]] + tail);
            if i == 0 {
                assert forall|k: int| 0 <= k < marker.len() implies #[trigger] out[k] != '[' by {
                    lemma_no_brackets(out, 0, marker, k);
                    assert(out[0 + k] != '[');
                }
                lemma_copied_prefix(s, marker.len() as int);
                assert forall|k: int| 0 <= k < marker.len() implies lower(#[trigger] s[0 + k])
                    == marker[k] by {
                    assert(lower(out[0 + k]) == marker[k]);
                    assert(s[k] == out[k]);
                }
                assert(marked_at(s, 0, marker));
            } else {
                lemma_marker_in_rest(out, 1, i, marker);
                assert(out.skip(1) =~= tail);
                lemma_marker_survives_nowhere(s.skip(1), i - 1, marker);
            }
        }
    }
}

/// No marker survives, in any case of its letters, nor does replacing make a new one.
pub proof fn law_no_marker_survives(s: Seq<char>)
    ensures
        forall|i: int| !#[trigger] any_marker_at(neutralized(s), i),
{
    assert forall|i: int| !#[trigger] any_marker_at(neutralized(s), i) by {
        lemma_marker_survives_nowhere(s, i, DSL_OPEN@);
        lemma_marker_survives_nowhere(s, i, DSL_CLOSE@);
    }
}

/// The fence around a document without the closing marker closes once, at its end.
pub(crate) proof fn lemma_fence_closes_once(document: Seq<char>, i: int)
    requires
        forall|j: int| !#[trigger] marked_at(document, j, DSL_CLOSE@),
    ensures
        marked_at(fenced(document), i, DSL_CLOSE@) <==> i == fenced(document).len()
            - DSL_CLOSE@.len(),
{
    reveal_strlit("<untrusted_dsl>");
    reveal_strlit("</untrusted_dsl>");
    reveal_strlit("\n");
    let f = fenced(document);
    let n = document.len() as int;
    let close = DSL_CLOSE@;
    assert(f.len() == 15 + 1 + n + 1 + 16);
    assert(f[15] == '\n');
    assert(f[16 + n] == '\n');
    assert forall|k: int| 0 <= k < close.len() implies lower(#[trigger] f[17 + n + k])
        == close[k] by {
        assert(f[17 + n + k] == close[k]);
    }
    assert(marked_at(f, 17 + n, close));
    if marked_at(f, i, close) {
        if i <= 15 {
            if i == 0 {
                assert(lower(f[i + 1]) == close[1]);
                assert(f[1] == 'u');
            } else {
                lemma_no_brackets(f, i, close, 15 - i);
            }
        } else if i < 16 + n {
            if i + 16 > 16 + n {
                lemma_no_brackets(f, i, close, 16 + n - i);
            } else {
                assert forall|k: int| 0 <= k < close.len() implies lower(
                    #[trigger] document[i - 16 + k],
                ) == close[k] by {
                    assert(lower(f[i + k]) == close[k]);
                    assert(f[i + k] == document[i - 16 + k]);
                }
                assert(marked_at(document, i - 16, close));
            }
        } else if i == 16 + n {
            lemma_no_brackets(f, i, close, 0);
        }
    }
}

/// A document cannot close its own fence: the one closing marker is the last thing.
pub proof fn law_document_cannot_close_its_fence(json: Seq<char>, i: int)
    ensures
        marked_at(fenced(sent_document(json)), i, DSL_CLOSE@) <==> i == fenced(
            sent_document(json),
        ).len() - DSL_CLOSE@.len(),
{
    assert forall|j: int| !#[trigger] marked_at(sent_document(json), j, DSL_CLOSE@) by {
        lemma_marker_survives_nowhere(json, j, DSL_CLOSE@);
    }
    lemma_fence_closes_once(sent_document(json), i);
}

/// A document without markers is sent as it is.
pub proof fn law_clean_documents_are_sent_verbatim(json: Seq<char>)
    requires
        forall|i: int| !#[trigger] any_marker_at(json, i),
    ensures
        sent_document(json) == json,
    decreases json.len(),
{
    if json.len() > 0 {
        let rest = json.skip(1);
        assert(!any_marker_at(json, 0));
        assert forall|i: int| !#[trigger] any_marker_at(rest, i) by {
            if any_marker_at(rest, i) {
                let marker = if marked_at(rest, i, DSL_OPEN@) {
                    DSL_OPEN@
                } else {
                    DSL_CLOSE@
                };
                assert forall|k: int| 0 <= k < marker.len() implies lower(
                    #[trigger] json[i + 1 + k],
                ) == marker[k] by {
                    assert(lower(rest[i + k]) == marker[k]);
                }
                assert(any_marker_at(json, i + 1));
            }
        }
        law_clean_documents_are_sent_verbatim(rest);
        assert(seq![json[0]] + rest =~= json);
    }
}

/// Replacing markers twice is replacing them once.
pub proof fn law_neutralizing_twice_is_once(s: Seq<char>)
    ensures
        neutralized(neutralized(s)) == neutralized(s),
{
    law_no_marker_survives(s);
    law_clean_documents_are_sent_verbatim(neutralized(s));
}

} // verus!
