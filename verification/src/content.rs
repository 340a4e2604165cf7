//! Flattening a heterogeneous JSON `content` value into plain text.
//!
//! A content value is either one string, taken verbatim, or an array of typed
//! blocks. Each block that carries a string `text` member contributes that
//! text; other block kinds are ignored. Contributions are joined by one
//! newline.

use vstd::prelude::*;

use crate::json::{jv_get_str, JsonValue};

verus! {

/// The text a content block contributes, when it carries a string `text`
/// member.
pub open spec fn block_text(b: JsonValue) -> Option<Seq<char>> {
    jv_get_str(b, "text"@)
}

/// The texts contributed by a sequence of content blocks, in order.
pub open spec fn block_texts(items: Seq<JsonValue>) -> Seq<Seq<char>>
    decreases items.len(),
{
    if items.len() == 0 {
        Seq::empty()
    } else {
        block_texts(items.drop_last()) + match block_text(items.last()) {
            Some(t) => seq![t],
            None => Seq::empty(),
        }
    }
}

/// The pieces joined by one newline between each two.
pub open spec fn join_nl(ts: Seq<Seq<char>>) -> Seq<char>
    decreases ts.len(),
{
    if ts.len() == 0 {
        Seq::empty()
    } else if ts.len() == 1 {
        ts[0]
    } else {
        join_nl(ts.drop_last()) + seq!['\n'] + ts.last()
    }
}

/// What a content value flattens to: one string verbatim, an array's
/// text-bearing blocks joined by newlines, nothing for any other shape.
pub open spec fn text_of(v: JsonValue) -> Seq<char> {
    match v {
        JsonValue::Str(s) => s@,
        JsonValue::Arr(items) => join_nl(block_texts(items@)),
        _ => Seq::empty(),
    }
}

/// Appends one more piece to an ongoing newline join.
pub fn push_joined(out: &mut String, t: &String, any: bool, Ghost(prior): Ghost<Seq<Seq<char>>>)
    requires
        old(out)@ == join_nl(prior),
        any == (prior.len() > 0),
    ensures
        final(out)@ == join_nl(prior.push(t@)),
{
    if any {
        proof {
            assert(prior.push(t@).drop_last() =~= prior);
            assert(prior.push(t@).last() == t@);
            assert(join_nl(prior.push(t@)) == join_nl(prior) + seq!['\n'] + t@);
        }
        out.append("\n");
        proof {
            reveal_strlit("\n");
            assert("\n"@ =~= seq!['\n']);
        }
    } else {
        proof {
            assert(prior.push(t@) =~= seq![t@]);
            assert(join_nl(seq![t@]) == t@);
            assert(out@ =~= Seq::<char>::empty());
        }
    }
    out.append(t.as_str());
    proof {
        assert(out@ =~= join_nl(prior.push(t@)));
    }
}

/// Flattens a content value into plain text.
pub fn extract_text(v: &JsonValue) -> (r: String)
    ensures
        r@ == text_of(*v),
{
    match v {
        JsonValue::Str(s) => s.clone(),
        JsonValue::Arr(items) => {
            let n = items.len();
            let mut out = String::new();
            let mut any = false;
            let mut i: usize = 0;
            while i < n
                invariant
                    i <= n,
                    n == items@.len(),
                    text_of(*v) == join_nl(block_texts(items@)),
                    any == (block_texts(items@.take(i as int)).len() > 0),
                    out@ == join_nl(block_texts(items@.take(i as int))),
                decreases n - i,
            {
                proof {
                    assert(items@.take(i + 1).drop_last() =~= items@.take(i as int));
                    assert(items@.take(i + 1).last() == items@[i as int]);
                }
                let item = &items[i];
                match item.get("text") {
                    Some(m) => match m.as_str_val() {
                        Some(t) => {
                            proof {
                                assert(block_text(items@[i as int]) == Some(t@));
                                assert(block_texts(items@.take(i + 1)) =~= block_texts(
                                    items@.take(i as int),
                                ).push(t@));
                            }
                            let ghost prior = block_texts(items@.take(i as int));
                            push_joined(&mut out, t, any, Ghost(prior));
                            any = true;
                        },
                        None => {
                            proof {
                                assert(block_text(items@[i as int]) is None);
                                assert(block_texts(items@.take(i + 1)) =~= block_texts(
                                    items@.take(i as int),
                                ));
                            }
                        },
                    },
                    None => {
                        proof {
                            assert(block_text(items@[i as int]) is None);
                            assert(block_texts(items@.take(i + 1)) =~= block_texts(
                                items@.take(i as int),
                            ));
                        }
                    },
                }
                i = i + 1;
            }
            proof {
                assert(items@.take(n as int) =~= items@);
            }
            out
        },
        _ => String::new(),
    }
}

} // verus!
