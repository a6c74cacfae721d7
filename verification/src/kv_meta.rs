//! The key-value metadata of a file (`--kv-meta`): the text lines, with the
//! Arrow schema that Arrow writers store base64-encoded, and the JSON object.

use vstd::prelude::*;
use crate::text::{byte_len, chars_le, chars_lt, dec, fmt_u64, lemma_chars_le_antisym,
    lemma_chars_le_refl, lemma_chars_le_total, lemma_chars_le_trans, lemma_strs_push, str_eq,
    str_le, strs};

verus! {

/// What `base64::engine::general_purpose::STANDARD.decode` gives for a text:
/// the decoded bytes, or none when the engine rejects the text.
pub uninterp spec fn base64_standard(text: Seq<char>) -> Option<Seq<u8>>;

/// What `base64::engine::general_purpose::URL_SAFE.decode` gives for a text:
/// the decoded bytes, or none when the engine rejects the text.
pub uninterp spec fn base64_url_safe(text: Seq<char>) -> Option<Seq<u8>>;

/// Decodes standard, padded base64 by calling
/// `base64::engine::general_purpose::STANDARD.decode`; the error is dropped.
/// The contract names the outcome [`base64_standard`]; the alphabet and
/// padding rules of the engine are not restated.
#[verifier::external_body]
fn decode_standard(text: &str) -> (r: Option<Vec<u8>>)
    ensures
        match r {
            Some(b) => base64_standard(text@) == Some(b@),
            None => base64_standard(text@) is None,
        },
{
    base64::Engine::decode(&base64::engine::general_purpose::STANDARD, text).ok()
}

/// Decodes URL-safe, padded base64 by calling
/// `base64::engine::general_purpose::URL_SAFE.decode`; the error is dropped.
/// The contract names the outcome [`base64_url_safe`].
#[verifier::external_body]
fn decode_url_safe(text: &str) -> (r: Option<Vec<u8>>)
    ensures
        match r {
            Some(b) => base64_url_safe(text@) == Some(b@),
            None => base64_url_safe(text@) is None,
        },
{
    base64::Engine::decode(&base64::engine::general_purpose::URL_SAFE, text).ok()
}

/// The text of a value; a missing value reads as empty.
pub open spec fn value_text(value: Option<String>) -> Seq<char> {
    match value {
        Some(v) => v@,
        None => Seq::empty(),
    }
}

/// The bytes of a base64 payload: standard base64 first, else URL-safe
/// base64 (which some writers use).
pub open spec fn spec_decode_payload(text: Seq<char>) -> Option<Seq<u8>> {
    match base64_standard(text) {
        Some(b) => Some(b),
        None => base64_url_safe(text),
    }
}

/// The key under which Arrow writers store their schema.
pub open spec fn arrow_schema_key() -> Seq<char> {
    "ARROW:schema"@
}

/// For the Arrow schema entry, the bytes its value decodes to; `None` for
/// other keys, or when the value is base64 of neither kind.
pub fn schema_payload(key: &str, value: &Option<String>) -> (r: Option<Vec<u8>>)
    ensures
        match r {
            Some(b) => key@ == arrow_schema_key() && spec_decode_payload(value_text(*value)) == Some(
                b@,
            ),
            None => key@ != arrow_schema_key() || spec_decode_payload(value_text(*value)) is None,
        },
{
    if !str_eq(key, "ARROW:schema") {
        return None;
    }
    proof {
        reveal_strlit("");
    }
    let text: &str = match value {
        Some(v) => v.as_str(),
        None => "",
    };
    assert(text@ == value_text(*value));
    match decode_standard(text) {
        Some(b) => Some(b),
        None => decode_url_safe(text),
    }
}

/// A field of a decoded Arrow schema: its name, its data type as Arrow
/// displays it, and whether it is nullable.
#[derive(Debug)]
pub struct ArrowField {
    pub name: String,
    pub data_type: String,
    pub nullable: bool,
}

/// The line of an Arrow field.
pub open spec fn spec_arrow_field_line(f: ArrowField) -> Seq<char> {
    "  "@ + f.name@ + ": "@ + f.data_type@ + if f.nullable {
        " [nullable]"@
    } else {
        Seq::empty()
    }
}

/// The lines of a metadata entry. The Arrow schema entry shows its decoded
/// fields when `payload` (the bytes its value decodes to) holds an Arrow
/// schema (`fields`); else the size of the bytes, or of the value when it
/// did not decode. Any other entry shows its key and value, tab-separated.
pub open spec fn spec_entry_lines(
    key: Seq<char>,
    value: Seq<char>,
    payload: Option<Seq<u8>>,
    fields: Option<Seq<ArrowField>>,
) -> Seq<Seq<char>> {
    if key == arrow_schema_key() {
        match payload {
            Some(bytes) => match fields {
                Some(fs) => seq![
                    key + "\t(decoded Arrow schema, "@ + dec(fs.len()) + " fields)"@,
                ] + Seq::new(fs.len(), |i: int| spec_arrow_field_line(fs[i])),
                None => seq![key + "\t(binary, "@ + dec(bytes.len()) + " bytes)"@],
            },
            None => seq![key + "\t(binary, "@ + dec(byte_len(value)) + " bytes)"@],
        }
    } else {
        seq![key + "\t"@ + value]
    }
}

fn push_line(out: &mut Vec<String>, line: String)
    ensures
        strs(final(out)@) == strs(old(out)@).push(line@),
{
    proof {
        lemma_strs_push(out@, line);
    }
    out.push(line);
}

/// The `--kv-meta` lines of one entry (see [`spec_entry_lines`]), given what
/// [`schema_payload`] gave for it and the Arrow fields read from that payload.
pub fn entry_lines(
    key: &str,
    value: &Option<String>,
    payload: &Option<Vec<u8>>,
    fields: &Option<Vec<ArrowField>>,
) -> (lines: Vec<String>)
    ensures
        strs(lines@) == spec_entry_lines(
            key@,
            value_text(*value),
            match payload {
                Some(b) => Some(b@),
                None => None,
            },
            match fields {
                Some(fs) => Some(fs@),
                None => None,
            },
        ),
{
    proof {
        reveal_strlit("");
    }
    let text: &str = match value {
        Some(v) => v.as_str(),
        None => "",
    };
    assert(text@ == value_text(*value));
    let mut out: Vec<String> = Vec::new();
    if !str_eq(key, "ARROW:schema") {
        let mut line = String::from_str(key);
        line.append("\t");
        line.append(text);
        push_line(&mut out, line);
        assert(strs(out@) =~= seq![key@ + "\t"@ + value_text(*value)]);
        return out;
    }
    match payload {
        Some(bytes) => match fields {
            Some(fs) => {
                let mut line = String::from_str(key);
                line.append("\t(decoded Arrow schema, ");
                line.append(fmt_u64(fs.len() as u64).as_str());
                line.append(" fields)");
                push_line(&mut out, line);
                let ghost start = strs(out@);
                let mut i: usize = 0;
                while i < fs.len()
                    invariant
                        0 <= i <= fs.len(),
                        strs(out@) == start + Seq::new(
                            i as nat,
                            |k: int| spec_arrow_field_line(fs@[k]),
                        ),
                    decreases fs.len() - i,
                {
                    let f = &fs[i];
                    let mut line = String::from_str("  ");
                    line.append(f.name.as_str());
                    line.append(": ");
                    line.append(f.data_type.as_str());
                    if f.nullable {
                        line.append(" [nullable]");
                    }
                    assert(line@ =~= spec_arrow_field_line(fs@[i as int]));
                    push_line(&mut out, line);
                    assert(strs(out@) =~= start + Seq::new(
                        (i + 1) as nat,
                        |k: int| spec_arrow_field_line(fs@[k]),
                    ));
                    i = i + 1;
                }
            },
            None => {
                let mut line = String::from_str(key);
                line.append("\t(binary, ");
                line.append(fmt_u64(bytes.len() as u64).as_str());
                line.append(" bytes)");
                push_line(&mut out, line);
            },
        },
        None => {
            let mut line = String::from_str(key);
            line.append("\t(binary, ");
            line.append(fmt_u64(text.len() as u64).as_str());
            line.append(" bytes)");
            push_line(&mut out, line);
        },
    }
    out
}

/// A metadata value as plain text, if present.
pub open spec fn opt_text(v: Option<String>) -> Option<Seq<char>> {
    match v {
        Some(s) => Some(s@),
        None => None,
    }
}

/// The value of the last entry with key `k`, if any entry has that key.
pub open spec fn last_value(kvs: Seq<(String, Option<String>)>, k: Seq<char>) -> Option<
    Option<Seq<char>>,
>
    decreases kvs.len(),
{
    if kvs.len() == 0 {
        None
    } else if kvs.last().0@ == k {
        Some(opt_text(kvs.last().1))
    } else {
        last_value(kvs.drop_last(), k)
    }
}

/// Whether the keys strictly ascend, so that none occurs twice.
pub open spec fn keys_ascending(r: Seq<(String, Option<String>)>) -> bool {
    forall|a: int, b: int| 0 <= a < b < r.len() ==> chars_lt(#[trigger] r[a].0@, #[trigger] r[b].0@)
}

/// The JSON object of `--kv-meta --json` as a map: each key once, with the
/// value of its last entry.
pub open spec fn is_key_map(r: Seq<(String, Option<String>)>, kvs: Seq<(String, Option<String>)>) -> bool {
    &&& keys_ascending(r)
    &&& forall|j: int| 0 <= j < r.len() ==> last_value(kvs, (#[trigger] r[j]).0@) == Some(opt_text(r[j].1))
    &&& forall|i: int|
        0 <= i < kvs.len() ==> exists|j: int| 0 <= j < r.len() && (#[trigger] r[j]).0@ == (#[trigger] kvs[i]).0@
}

proof fn lemma_last_value_step(kvs: Seq<(String, Option<String>)>, n: int, k: Seq<char>)
    requires
        0 <= n < kvs.len(),
    ensures
        last_value(kvs.take(n + 1), k) == if kvs[n].0@ == k {
            Some(opt_text(kvs[n].1))
        } else {
            last_value(kvs.take(n), k)
        },
{
    assert(kvs.take(n + 1).drop_last() =~= kvs.take(n));
}

fn copy_value(v: &Option<String>) -> (r: Option<String>)
    ensures
        opt_text(r) == opt_text(*v),
{
    match v {
        Some(s) => Some(s.clone()),
        None => None,
    }
}

/// The entries of the JSON object of `--kv-meta --json`: in key order, each
/// key once, with the value of its last entry in the file.
pub fn emit_json(kvs: &Vec<(String, Option<String>)>) -> (r: Vec<(String, Option<String>)>)
    ensures
        is_key_map(r@, kvs@),
{
    let ghost all = kvs@;
    let mut out: Vec<(String, Option<String>)> = Vec::new();
    let mut n: usize = 0;
    while n < kvs.len()
        invariant
            0 <= n <= kvs.len(),
            all == kvs@,
            is_key_map(out@, all.take(n as int)),
        decreases kvs.len() - n,
    {
        let ghost prev = all.take(n as int);
        let ghost next = all.take(n + 1);
        let ghost key = kvs@[n as int].0@;
        proof {
            assert forall|k: Seq<char>| #[trigger] last_value(next, k) == if all[n as int].0@ == k {
                Some(opt_text(all[n as int].1))
            } else {
                last_value(prev, k)
            } by {
                lemma_last_value_step(all, n as int, k);
            }
        }
        let mut p: usize = 0;
        while p < out.len() && !str_le(kvs[n].0.as_str(), out[p].0.as_str())
            invariant
                0 <= p <= out.len(),
                n < kvs.len(),
                key == kvs@[n as int].0@,
                forall|i: int| 0 <= i < p ==> !chars_le(key, #[trigger] out@[i].0@),
            decreases out.len() - p,
        {
            p = p + 1;
        }
        let ghost old_out = out@;
        let value = copy_value(&kvs[n].1);
        if p < out.len() && str_eq(kvs[n].0.as_str(), out[p].0.as_str()) {
            let name = out[p].0.clone();
            out.set(p, (name, value));
            proof {
                assert forall|i: int| 0 <= i < old_out.len() && i != p implies (#[trigger] old_out[i]).0@ != key by {
                    if i < p {
                        assert(chars_lt(old_out[i].0@, old_out[p as int].0@));
                    } else {
                        assert(chars_lt(old_out[p as int].0@, old_out[i].0@));
                    }
                }
                assert forall|a: int, b: int| 0 <= a < b < out@.len() implies chars_lt(
                    #[trigger] out@[a].0@,
                    #[trigger] out@[b].0@,
                ) by {
                    assert(out@[a].0@ == old_out[a].0@);
                    assert(out@[b].0@ == old_out[b].0@);
                    assert(chars_lt(old_out[a].0@, old_out[b].0@));
                }
                assert forall|j: int| 0 <= j < out@.len() implies last_value(next, (#[trigger] out@[j]).0@)
                    == Some(opt_text(out@[j].1)) by {
                    if j != p {
                        assert(out@[j] == old_out[j]);
                        assert(last_value(prev, old_out[j].0@) == Some(opt_text(old_out[j].1)));
                    }
                }
                assert forall|i: int| 0 <= i < next.len() implies exists|j: int|
                    0 <= j < out@.len() && (#[trigger] out@[j]).0@ == (#[trigger] next[i]).0@ by {
                    if i < n {
                        assert(next[i] == prev[i]);
                        let j = choose|j: int| 0 <= j < old_out.len() && (#[trigger] old_out[j]).0@ == prev[i].0@;
                        assert(out@[j].0@ == old_out[j].0@);
                    } else {
                        assert(out@[p as int].0@ == key);
                    }
                }
            }
        } else {
            let name = kvs[n].0.clone();
            proof {
                assert forall|i: int| 0 <= i < p implies chars_lt(#[trigger] old_out[i].0@, key) by {
                    lemma_chars_le_total(key, old_out[i].0@);
                    lemma_chars_le_refl(key);
                }
                assert forall|i: int| p <= i < old_out.len() implies chars_lt(key, #[trigger] old_out[i].0@) by {
                    assert(chars_le(key, old_out[p as int].0@));
                    assert(key != old_out[p as int].0@);
                    if i > p {
                        assert(chars_lt(old_out[p as int].0@, old_out[i].0@));
                        lemma_chars_le_trans(key, old_out[p as int].0@, old_out[i].0@);
                        if key == old_out[i].0@ {
                            lemma_chars_le_antisym(old_out[p as int].0@, key);
                        }
                    }
                }
            }
            out.insert(p, (name, value));
            proof {
                assert forall|i: int| 0 <= i < p implies out@[i] == old_out[i] by {}
                assert forall|i: int| p < i < out@.len() implies out@[i] == old_out[i - 1] by {}
                assert forall|a: int, b: int| 0 <= a < b < out@.len() implies chars_lt(
                    #[trigger] out@[a].0@,
                    #[trigger] out@[b].0@,
                ) by {
                    if b < p {
                        assert(chars_lt(old_out[a].0@, old_out[b].0@));
                    } else if b == p {
                        assert(chars_lt(old_out[a].0@, key));
                    } else if a == p {
                        assert(chars_lt(key, old_out[b - 1].0@));
                    } else if a < p {
                        assert(chars_lt(old_out[a].0@, key));
                        assert(chars_lt(key, old_out[b - 1].0@));
                        lemma_chars_le_trans(old_out[a].0@, key, old_out[b - 1].0@);
                        if old_out[a].0@ == old_out[b - 1].0@ {
                            lemma_chars_le_antisym(old_out[a].0@, key);
                        }
                    } else {
                        assert(chars_lt(old_out[a - 1].0@, old_out[b - 1].0@));
                    }
                }
                assert forall|j: int| 0 <= j < out@.len() implies last_value(next, (#[trigger] out@[j]).0@)
                    == Some(opt_text(out@[j].1)) by {
                    if j < p {
                        assert(chars_lt(old_out[j].0@, key));
                        assert(last_value(prev, old_out[j].0@) == Some(opt_text(old_out[j].1)));
                    } else if j > p {
                        assert(chars_lt(key, old_out[j - 1].0@));
                        assert(last_value(prev, old_out[j - 1].0@) == Some(opt_text(old_out[j - 1].1)));
                    }
                }
                assert forall|i: int| 0 <= i < next.len() implies exists|j: int|
                    0 <= j < out@.len() && (#[trigger] out@[j]).0@ == (#[trigger] next[i]).0@ by {
                    if i < n {
                        assert(next[i] == prev[i]);
                        let j = choose|j: int| 0 <= j < old_out.len() && (#[trigger] old_out[j]).0@ == prev[i].0@;
                        if j < p {
                            assert(out@[j] == old_out[j]);
                        } else {
                            assert(out@[j + 1] == old_out[j]);
                        }
                    } else {
                        assert(out@[p as int].0@ == key);
                    }
                }
            }
        }
        n = n + 1;
    }
    assert(all.take(kvs.len() as int) =~= all);
    out
}

} // verus!
