//! Encoding and decoding the persisted configuration.
//!
//! The configuration is persisted as one structured record: an object
//! with the last-applied version (a string, or `null`) and the component
//! mapping, each component an object holding its mode and its present
//! path fields, absent fields omitted.  Encoding is deterministic, and
//! decoding is proved to recover exactly the value encoded.

use vstd::prelude::*;
use vstd::string::*;
use crate::config::{ComponentConfig, ComponentConfigV, ComponentMode, DevConfig, DevConfigV};
use crate::errors::DevError;
use crate::strutil;

verus! {

/// A character as it is written inside a quoted string: quotes and
/// backslashes carry an escape, everything else stands as itself.
pub open spec fn spec_esc_char(c: char) -> Seq<char> {
    if c == '"' {
        seq!['\\', '"']
    } else if c == '\\' {
        seq!['\\', '\\']
    } else {
        seq![c]
    }
}

/// The characters of `s` as written inside a quoted string.
pub open spec fn spec_escape(s: Seq<char>) -> Seq<char>
    decreases s.len(),
{
    if s.len() == 0 {
        Seq::empty()
    } else {
        spec_esc_char(s[0]) + spec_escape(s.skip(1))
    }
}

/// `s` written as a quoted string.
pub open spec fn spec_ser_string(s: Seq<char>) -> Seq<char> {
    seq!['"'] + spec_escape(s) + seq!['"']
}

/// An optional string written as a quoted string or the literal `null`.
pub open spec fn spec_ser_opt(o: Option<Seq<char>>) -> Seq<char> {
    match o {
        Option::None => "null"@,
        Option::Some(v) => spec_ser_string(v),
    }
}

/// A component mode written as its lowercase name.
pub open spec fn spec_ser_mode(m: ComponentMode) -> Seq<char> {
    match m {
        ComponentMode::Binary => "\"binary\""@,
        ComponentMode::Source => "\"source\""@,
    }
}

/// An optional field written as its keyed value, or nothing when absent.
/// `prefix` is the comma, key and colon that introduce the field.
pub open spec fn spec_ser_field(prefix: Seq<char>, o: Option<Seq<char>>) -> Seq<char> {
    match o {
        Option::None => Seq::empty(),
        Option::Some(v) => prefix + spec_ser_string(v),
    }
}

/// One component's override data written as an object.
pub open spec fn spec_ser_comp(c: ComponentConfigV) -> Seq<char> {
    "{\"mode\":"@ + spec_ser_mode(c.mode) + spec_ser_field(",\"lib\":"@, c.lib) + spec_ser_field(
        ",\"qml\":"@,
        c.qml,
    ) + spec_ser_field(",\"plugin\":"@, c.plugin) + spec_ser_field(",\"headers\":"@, c.headers)
        + spec_ser_field(",\"bin\":"@, c.bin) + seq!['}']
}

/// One mapping entry written as a keyed component object.
pub open spec fn spec_ser_entry(e: (Seq<char>, ComponentConfigV)) -> Seq<char> {
    spec_ser_string(e.0) + seq![':'] + spec_ser_comp(e.1)
}

/// Every entry after the first, each preceded by its separating comma.
pub open spec fn spec_ser_more(comps: Seq<(Seq<char>, ComponentConfigV)>) -> Seq<char>
    decreases comps.len(),
{
    if comps.len() == 0 {
        Seq::empty()
    } else {
        seq![','] + spec_ser_entry(comps.first()) + spec_ser_more(comps.drop_first())
    }
}

/// The component mapping's entries, comma-separated, in stored order.
pub open spec fn spec_ser_entries(comps: Seq<(Seq<char>, ComponentConfigV)>) -> Seq<char> {
    if comps.len() == 0 {
        Seq::empty()
    } else {
        spec_ser_entry(comps.first()) + spec_ser_more(comps.drop_first())
    }
}

/// The whole configuration written as one record.
pub open spec fn spec_ser_config(c: DevConfigV) -> Seq<char> {
    "{\"sdk_version\":"@ + spec_ser_opt(c.sdk_version) + ",\"components\":{"@ + spec_ser_entries(
        c.components,
    ) + "}}"@
}

/// Appending one entry extends the written mapping by a separating comma
/// and that entry, or starts it when the mapping was empty.
proof fn lemma_ser_more_push(comps: Seq<(Seq<char>, ComponentConfigV)>, e: (Seq<char>, ComponentConfigV))
    ensures
        spec_ser_more(comps.push(e)) == spec_ser_more(comps) + seq![','] + spec_ser_entry(e),
    decreases comps.len(),
{
    if comps.len() == 0 {
        assert(comps.push(e).first() == e);
        assert(comps.push(e).drop_first() =~= Seq::<(Seq<char>, ComponentConfigV)>::empty());
        assert(spec_ser_more(Seq::<(Seq<char>, ComponentConfigV)>::empty()) =~= Seq::<
            char,
        >::empty());
        assert(spec_ser_more(comps.push(e)) =~= spec_ser_more(comps) + seq![',']
            + spec_ser_entry(e));
    } else {
        assert(comps.push(e).first() == comps.first());
        assert(comps.push(e).drop_first() =~= comps.drop_first().push(e));
        lemma_ser_more_push(comps.drop_first(), e);
        assert(spec_ser_more(comps.push(e)) =~= spec_ser_more(comps) + seq![',']
            + spec_ser_entry(e));
    }
}

/// Appending one entry extends the written entry list at its end.
proof fn lemma_ser_entries_push(
    comps: Seq<(Seq<char>, ComponentConfigV)>,
    e: (Seq<char>, ComponentConfigV),
)
    ensures
        comps.len() == 0 ==> spec_ser_entries(comps.push(e)) == spec_ser_entry(e),
        comps.len() > 0 ==> spec_ser_entries(comps.push(e)) == spec_ser_entries(comps)
            + seq![','] + spec_ser_entry(e),
{
    if comps.len() == 0 {
        assert(comps.push(e).first() == e);
        assert(comps.push(e).drop_first() =~= Seq::<(Seq<char>, ComponentConfigV)>::empty());
        assert(spec_ser_more(Seq::<(Seq<char>, ComponentConfigV)>::empty()) =~= Seq::<
            char,
        >::empty());
        assert(spec_ser_entries(comps.push(e)) =~= spec_ser_entry(e));
    } else {
        assert(comps.push(e).first() == comps.first());
        assert(comps.push(e).drop_first() =~= comps.drop_first().push(e));
        lemma_ser_more_push(comps.drop_first(), e);
        assert(spec_ser_entries(comps.push(e)) =~= spec_ser_entries(comps) + seq![',']
            + spec_ser_entry(e));
    }
}

/// Append `s`, written with its in-string escapes, to `out`.
fn append_escaped(out: &mut String, s: &str)
    ensures
        final(out)@ == old(out)@ + spec_escape(s@),
{
    let n = s.unicode_len();
    proof {
        assert(s@.skip(0) =~= s@);
    }
    let mut i: usize = 0;
    while i < n
        invariant
            n == s@.len(),
            i <= n,
            old(out)@ + spec_escape(s@) == out@ + spec_escape(s@.skip(i as int)),
        decreases n - i,
    {
        let ghost t = s@.skip(i as int);
        let ghost out0 = out@;
        proof {
            assert(t[0] == s@[i as int]);
            assert(t.skip(1) =~= s@.skip(i + 1));
        }
        let c = s.get_char(i);
        if c == '"' {
            out.append("\\\"");
            proof {
                reveal_strlit("\\\"");
                assert("\\\""@ =~= seq!['\\', '"']);
                assert(out0 + (spec_esc_char(c) + spec_escape(s@.skip(i + 1))) =~= out@
                    + spec_escape(s@.skip(i + 1)));
            }
        } else if c == '\\' {
            out.append("\\\\");
            proof {
                reveal_strlit("\\\\");
                assert("\\\\"@ =~= seq!['\\', '\\']);
                assert(out0 + (spec_esc_char(c) + spec_escape(s@.skip(i + 1))) =~= out@
                    + spec_escape(s@.skip(i + 1)));
            }
        } else {
            let piece = s.substring_char(i, i + 1);
            out.append(piece);
            proof {
                assert(piece@ =~= spec_esc_char(c));
                assert(out0 + (spec_esc_char(c) + spec_escape(s@.skip(i + 1))) =~= out@
                    + spec_escape(s@.skip(i + 1)));
            }
        }
        i = i + 1;
    }
    proof {
        assert(s@.skip(n as int) =~= Seq::<char>::empty());
        assert(out@ + spec_escape(Seq::<char>::empty()) =~= out@);
    }
}

/// Append `s` written as a quoted string to `out`.
fn append_string(out: &mut String, s: &str)
    ensures
        final(out)@ == old(out)@ + spec_ser_string(s@),
{
    let ghost out0 = out@;
    out.append("\"");
    append_escaped(out, s);
    out.append("\"");
    proof {
        reveal_strlit("\"");
        assert("\""@ =~= seq!['"']);
        assert(out@ =~= out0 + spec_ser_string(s@));
    }
}

/// Append one optional field, introduced by `lit`, to `out`.
fn append_field(out: &mut String, lit: &str, v: &Option<String>)
    ensures
        final(out)@ == old(out)@ + spec_ser_field(lit@, crate::config::view_opt(*v)),
{
    let ghost out0 = out@;
    match v {
        Some(s) => {
            out.append(lit);
            append_string(out, s.as_str());
            proof {
                vstd::seq_lib::lemma_concat_associative(out0, lit@, spec_ser_string(s@));
            }
        },
        None => {
            proof {
                assert(out0 + Seq::<char>::empty() =~= out0);
            }
        },
    }
}

/// Append one component's override data, written as an object, to `out`.
fn append_comp(out: &mut String, c: &ComponentConfig)
    ensures
        final(out)@ == old(out)@ + spec_ser_comp(c@),
{
    let ghost out0 = out@;
    out.append("{\"mode\":");
    match c.mode {
        ComponentMode::Binary => out.append("\"binary\""),
        ComponentMode::Source => out.append("\"source\""),
    }
    let ghost acc = "{\"mode\":"@ + spec_ser_mode(c.mode);
    proof {
        vstd::seq_lib::lemma_concat_associative(out0, "{\"mode\":"@, spec_ser_mode(c.mode));
        assert(out@ == out0 + acc);
    }
    append_field(out, ",\"lib\":", &c.lib);
    proof {
        vstd::seq_lib::lemma_concat_associative(
            out0,
            acc,
            spec_ser_field(",\"lib\":"@, c@.lib),
        );
    }
    let ghost acc = acc + spec_ser_field(",\"lib\":"@, c@.lib);
    append_field(out, ",\"qml\":", &c.qml);
    proof {
        vstd::seq_lib::lemma_concat_associative(
            out0,
            acc,
            spec_ser_field(",\"qml\":"@, c@.qml),
        );
    }
    let ghost acc = acc + spec_ser_field(",\"qml\":"@, c@.qml);
    append_field(out, ",\"plugin\":", &c.plugin);
    proof {
        vstd::seq_lib::lemma_concat_associative(
            out0,
            acc,
            spec_ser_field(",\"plugin\":"@, c@.plugin),
        );
    }
    let ghost acc = acc + spec_ser_field(",\"plugin\":"@, c@.plugin);
    append_field(out, ",\"headers\":", &c.headers);
    proof {
        vstd::seq_lib::lemma_concat_associative(
            out0,
            acc,
            spec_ser_field(",\"headers\":"@, c@.headers),
        );
    }
    let ghost acc = acc + spec_ser_field(",\"headers\":"@, c@.headers);
    append_field(out, ",\"bin\":", &c.bin);
    proof {
        vstd::seq_lib::lemma_concat_associative(
            out0,
            acc,
            spec_ser_field(",\"bin\":"@, c@.bin),
        );
    }
    let ghost acc = acc + spec_ser_field(",\"bin\":"@, c@.bin);
    out.append("}");
    proof {
        reveal_strlit("}");
        assert("}"@ =~= seq!['}']);
        vstd::seq_lib::lemma_concat_associative(out0, acc, seq!['}']);
        assert(out@ == out0 + (acc + seq!['}']));
        assert(acc + seq!['}'] == spec_ser_comp(c@));
    }
}

impl DevConfig {
    /// Write this configuration as its persisted text.  Encoding is a
    /// function of the value alone, so equal configurations always
    /// persist as byte-identical text.
    pub fn save(&self) -> (r: String)
        ensures
            r@ == spec_ser_config(self@),
    {
        let mut out = String::from_str("{\"sdk_version\":");
        match &self.sdk_version {
            None => out.append("null"),
            Some(v) => append_string(&mut out, v.as_str()),
        }
        out.append(",\"components\":{");
        let ghost head = "{\"sdk_version\":"@ + spec_ser_opt(self@.sdk_version)
            + ",\"components\":{"@;
        proof {
            assert(out@ =~= head);
        }
        let ghost comps = self@.components;
        let n = self.components.len();
        proof {
            assert(comps.take(0) =~= Seq::<(Seq<char>, ComponentConfigV)>::empty());
        }
        let mut i: usize = 0;
        while i < n
            invariant
                n == self.components.len(),
                i <= n,
                comps == self@.components,
                comps.len() == n,
                head == "{\"sdk_version\":"@ + spec_ser_opt(self@.sdk_version)
                    + ",\"components\":{"@,
                forall|j: int|
                    0 <= j < n ==> comps[j] == (self.components@[j].name@,
                    self.components@[j].config@),
                out@ == head + spec_ser_entries(comps.take(i as int)),
            decreases n - i,
        {
            let ghost pre = comps.take(i as int);
            proof {
                assert(comps.take(i + 1) =~= pre.push(comps[i as int]));
                lemma_ser_entries_push(pre, comps[i as int]);
            }
            let ghost outb = out@;
            if i > 0 {
                out.append(",");
                proof {
                    reveal_strlit(",");
                    assert(","@ =~= seq![',']);
                }
            }
            let entry = &self.components[i];
            append_string(&mut out, entry.name.as_str());
            out.append(":");
            append_comp(&mut out, &entry.config);
            proof {
                reveal_strlit(":");
                assert(":"@ =~= seq![':']);
                if i > 0 {
                    assert(out@ =~= outb + seq![','] + spec_ser_entry(comps[i as int]));
                    assert(out@ =~= head + spec_ser_entries(comps.take(i + 1)));
                } else {
                    assert(pre.len() == 0);
                    assert(out@ =~= outb + spec_ser_entry(comps[i as int]));
                    assert(out@ =~= head + spec_ser_entries(comps.take(i + 1)));
                }
            }
            i = i + 1;
        }
        proof {
            assert(comps.take(n as int) =~= comps);
        }
        out.append("}}");
        proof {
            assert(out@ =~= spec_ser_config(self@));
        }
        out
    }
}

/// Strip `lit` from the front of `t`, or nothing when it is not there.
pub open spec fn spec_strip(t: Seq<char>, lit: Seq<char>) -> Option<Seq<char>> {
    if strutil::spec_starts_with(t, lit) {
        Option::Some(t.skip(lit.len() as int))
    } else {
        Option::None
    }
}

/// Prepend one decoded character to a decode-in-progress.
pub open spec fn spec_prepend(c: char, o: Option<(Seq<char>, Seq<char>)>) -> Option<
    (Seq<char>, Seq<char>),
> {
    match o {
        Option::Some((v, r)) => Option::Some((seq![c] + v, r)),
        Option::None => Option::None,
    }
}

/// Prepend already-decoded characters to a decode-in-progress.
pub open spec fn spec_prepend_all(p: Seq<char>, o: Option<(Seq<char>, Seq<char>)>) -> Option<
    (Seq<char>, Seq<char>),
> {
    match o {
        Option::Some((v, r)) => Option::Some((p + v, r)),
        Option::None => Option::None,
    }
}

/// Decode quoted-string content up to and including the closing quote:
/// the decoded value and what follows the closing quote.
pub open spec fn spec_content(t: Seq<char>) -> Option<(Seq<char>, Seq<char>)>
    decreases t.len(),
{
    if t.len() == 0 {
        Option::None
    } else if t[0] == '"' {
        Option::Some((Seq::empty(), t.skip(1)))
    } else if t[0] == '\\' {
        if t.len() >= 2 && (t[1] == '"' || t[1] == '\\') {
            spec_prepend(t[1], spec_content(t.skip(2)))
        } else {
            Option::None
        }
    } else {
        spec_prepend(t[0], spec_content(t.skip(1)))
    }
}

/// Decode a quoted string from the front of `t`.
pub open spec fn spec_parse_string(t: Seq<char>) -> Option<(Seq<char>, Seq<char>)> {
    if t.len() > 0 && t[0] == '"' {
        spec_content(t.skip(1))
    } else {
        Option::None
    }
}

/// Decode a quoted string or the literal `null` from the front of `t`.
pub open spec fn spec_parse_opt(t: Seq<char>) -> Option<(Option<Seq<char>>, Seq<char>)> {
    match spec_strip(t, "null"@) {
        Option::Some(r) => Option::Some((Option::None, r)),
        Option::None => match spec_parse_string(t) {
            Option::Some((v, r)) => Option::Some((Option::Some(v), r)),
            Option::None => Option::None,
        },
    }
}

/// Decode a component mode from the front of `t`.
pub open spec fn spec_parse_mode(t: Seq<char>) -> Option<(ComponentMode, Seq<char>)> {
    match spec_strip(t, "\"source\""@) {
        Option::Some(r) => Option::Some((ComponentMode::Source, r)),
        Option::None => match spec_strip(t, "\"binary\""@) {
            Option::Some(r) => Option::Some((ComponentMode::Binary, r)),
            Option::None => Option::None,
        },
    }
}

/// Decode one optional field from the front of `t`: when `lit` — the
/// comma, key and colon that introduce the field — is there, the keyed
/// string must follow; when it is not, the field is absent and `t` is
/// left as it is.
pub open spec fn spec_parse_field(t: Seq<char>, lit: Seq<char>) -> Option<
    (Option<Seq<char>>, Seq<char>),
> {
    match spec_strip(t, lit) {
        Option::Some(r) => match spec_parse_string(r) {
            Option::Some((v, r2)) => Option::Some((Option::Some(v), r2)),
            Option::None => Option::None,
        },
        Option::None => Option::Some((Option::None, t)),
    }
}

/// Decode one component object from the front of `t`.
pub open spec fn spec_parse_comp(t: Seq<char>) -> Option<(ComponentConfigV, Seq<char>)> {
    match spec_strip(t, "{\"mode\":"@) {
        Option::None => Option::None,
        Option::Some(r0) => match spec_parse_mode(r0) {
            Option::None => Option::None,
            Option::Some((mode, r1)) => match spec_parse_field(r1, ",\"lib\":"@) {
                Option::None => Option::None,
                Option::Some((lib, r2)) => match spec_parse_field(r2, ",\"qml\":"@) {
                    Option::None => Option::None,
                    Option::Some((qml, r3)) => match spec_parse_field(r3, ",\"plugin\":"@) {
                        Option::None => Option::None,
                        Option::Some((plugin, r4)) => match spec_parse_field(
                            r4,
                            ",\"headers\":"@,
                        ) {
                            Option::None => Option::None,
                            Option::Some((headers, r5)) => match spec_parse_field(
                                r5,
                                ",\"bin\":"@,
                            ) {
                                Option::None => Option::None,
                                Option::Some((bin, r6)) => match spec_strip(r6, "}"@) {
                                    Option::None => Option::None,
                                    Option::Some(r7) => Option::Some(
                                        (
                                            ComponentConfigV {
                                                mode,
                                                lib,
                                                qml,
                                                plugin,
                                                headers,
                                                bin,
                                            },
                                            r7,
                                        ),
                                    ),
                                },
                            },
                        },
                    },
                },
            },
        },
    }
}

/// Decode one mapping entry — a quoted name, a colon, a component
/// object — from the front of `t`.
pub open spec fn spec_parse_entry(t: Seq<char>) -> Option<
    ((Seq<char>, ComponentConfigV), Seq<char>),
> {
    match spec_parse_string(t) {
        Option::None => Option::None,
        Option::Some((name, r1)) => match spec_strip(r1, ":"@) {
            Option::None => Option::None,
            Option::Some(r2) => match spec_parse_comp(r2) {
                Option::None => Option::None,
                Option::Some((c, r3)) => Option::Some(((name, c), r3)),
            },
        },
    }
}

/// Decode the component mapping's entries up to and including the
/// mapping's closing brace.  `fuel` bounds the recursion; any value
/// larger than the entry count behaves the same.
pub open spec fn spec_parse_entries(t: Seq<char>, fuel: nat) -> Option<
    (Seq<(Seq<char>, ComponentConfigV)>, Seq<char>),
>
    decreases fuel,
{
    if fuel == 0 {
        Option::None
    } else if t.len() > 0 && t[0] == '}' {
        Option::Some((Seq::empty(), t.skip(1)))
    } else {
        match spec_parse_entry(t) {
            Option::None => Option::None,
            Option::Some((e, r)) => {
                if r.len() > 0 && r[0] == ',' {
                    match spec_parse_entries(r.skip(1), (fuel - 1) as nat) {
                        Option::None => Option::None,
                        Option::Some((es, r2)) => Option::Some((seq![e] + es, r2)),
                    }
                } else if r.len() > 0 && r[0] == '}' {
                    Option::Some((seq![e], r.skip(1)))
                } else {
                    Option::None
                }
            },
        }
    }
}

/// Prepend already-decoded entries to an entry decode-in-progress.
pub open spec fn spec_prepend_entries(
    p: Seq<(Seq<char>, ComponentConfigV)>,
    o: Option<(Seq<(Seq<char>, ComponentConfigV)>, Seq<char>)>,
) -> Option<(Seq<(Seq<char>, ComponentConfigV)>, Seq<char>)> {
    match o {
        Option::Some((es, r)) => Option::Some((p + es, r)),
        Option::None => Option::None,
    }
}

/// No entry name occurs twice.
pub open spec fn spec_entries_wf(es: Seq<(Seq<char>, ComponentConfigV)>) -> bool {
    forall|i: int, j: int| 0 <= i < j < es.len() ==> es[i].0 != es[j].0
}

/// Decode a whole persisted configuration.  Yields a value exactly when
/// `s` is a well-formed record with no name stored twice.
pub open spec fn spec_parse_config(s: Seq<char>) -> Option<DevConfigV> {
    match spec_strip(s, "{\"sdk_version\":"@) {
        Option::None => Option::None,
        Option::Some(r0) => match spec_parse_opt(r0) {
            Option::None => Option::None,
            Option::Some((sv, r1)) => match spec_strip(r1, ",\"components\":{"@) {
                Option::None => Option::None,
                Option::Some(r2) => spec_finish(
                    sv,
                    spec_parse_entries(r2, (r2.len() + 1) as nat),
                ),
            },
        },
    }
}

/// Decoded characters prepend through a single-character step.
proof fn lemma_prepend_all_push(p: Seq<char>, c: char, x: Option<(Seq<char>, Seq<char>)>)
    ensures
        spec_prepend_all(p, spec_prepend(c, x)) == spec_prepend_all(p + seq![c], x),
{
    match x {
        Option::Some((v, r)) => {
            vstd::seq_lib::lemma_concat_associative(p, seq![c], v);
        },
        Option::None => {},
    }
}

/// Decoded entries prepend through a single-entry step.
proof fn lemma_prepend_entries_push(
    p: Seq<(Seq<char>, ComponentConfigV)>,
    e: (Seq<char>, ComponentConfigV),
    x: Option<(Seq<(Seq<char>, ComponentConfigV)>, Seq<char>)>,
)
    ensures
        spec_prepend_entries(p, spec_prepend_entries(seq![e], x)) == spec_prepend_entries(
            p.push(e),
            x,
        ),
{
    match x {
        Option::Some((es, r)) => {
            vstd::seq_lib::lemma_concat_associative(p, seq![e], es);
            assert(p + seq![e] =~= p.push(e));
        },
        Option::None => {},
    }
}

/// Consume `lit` at position `i` of `s`, reporting the position after it.
fn expect_lit(s: &str, n: usize, i: usize, lit: &str) -> (r: Option<usize>)
    requires
        n == s@.len(),
        i <= n,
    ensures
        match r {
            Option::Some(j) => i <= j <= n && spec_strip(s@.skip(i as int), lit@)
                == Option::Some(s@.skip(j as int)),
            Option::None => spec_strip(s@.skip(i as int), lit@) is None,
        },
{
    let ghost t = s@.skip(i as int);
    if strutil::matches_at(s, n, i, lit) {
        proof {
            assert(t.subrange(0, lit@.len() as int) =~= s@.subrange(i as int, i + lit@.len()));
            assert(strutil::spec_starts_with(t, lit@));
            assert(t.skip(lit@.len() as int) =~= s@.skip(i + lit@.len()));
        }
        Some(i + lit.unicode_len())
    } else {
        proof {
            if strutil::spec_starts_with(t, lit@) {
                assert(t.subrange(0, lit@.len() as int) =~= s@.subrange(
                    i as int,
                    i + lit@.len(),
                ));
            }
        }
        None
    }
}

/// Decode the quoted string at position `i` of `s`.
#[verifier::loop_isolation(false)]
fn parse_string_at(s: &str, n: usize, i: usize) -> (r: Option<(String, usize)>)
    requires
        n == s@.len(),
        i <= n,
    ensures
        match r {
            Option::Some((v, j)) => i < j <= n && spec_parse_string(s@.skip(i as int))
                == Option::Some((v@, s@.skip(j as int))),
            Option::None => spec_parse_string(s@.skip(i as int)) is None,
        },
{
    let ghost t = s@.skip(i as int);
    if i >= n {
        return None;
    }
    proof {
        assert(t[0] == s@[i as int]);
    }
    if s.get_char(i) != '"' {
        return None;
    }
    let ghost t0 = s@.skip(i + 1);
    proof {
        assert(t.skip(1) =~= t0);
    }
    let mut out = String::new();
    let mut cur: usize = i + 1;
    proof {
        assert(spec_parse_string(s@.skip(i as int)) == spec_content(t0));
        assert(spec_prepend_all(Seq::<char>::empty(), spec_content(t0)) == spec_content(t0)) by {
            match spec_content(t0) {
                Option::Some((v, r)) => {
                    assert(Seq::<char>::empty() + v =~= v);
                },
                Option::None => {},
            }
        }
    }
    while cur < n
        invariant
            n == s@.len(),
            i + 1 <= cur <= n,
            t0 == s@.skip(i + 1),
            spec_content(t0) == spec_prepend_all(out@, spec_content(s@.skip(cur as int))),
        decreases n - cur,
    {
        let ghost tc = s@.skip(cur as int);
        let ghost out0 = out@;
        proof {
            assert(tc[0] == s@[cur as int]);
        }
        let c = s.get_char(cur);
        if c == '"' {
            proof {
                assert(spec_content(tc) == Option::Some(
                    (Seq::<char>::empty(), s@.skip(cur + 1)),
                )) by {
                    assert(tc.skip(1) =~= s@.skip(cur + 1));
                }
                assert(out0 + Seq::<char>::empty() =~= out0);
                assert(spec_parse_string(s@.skip(i as int)) == Option::Some(
                    (out@, s@.skip(cur + 1)),
                ));
            }
            return Some((out, cur + 1));
        } else if c == '\\' {
            if cur + 1 >= n {
                proof {
                    assert(tc.len() == 1);
                    assert(spec_content(tc) is None);
                    assert(spec_parse_string(s@.skip(i as int)) is None);
                }
                return None;
            }
            proof {
                assert(tc[1] == s@[cur + 1]);
            }
            let c2 = s.get_char(cur + 1);
            if c2 == '"' {
                out.append("\"");
                proof {
                    reveal_strlit("\"");
                    assert("\""@ =~= seq!['"']);
                    assert(tc.skip(2) =~= s@.skip(cur + 2));
                    lemma_prepend_all_push(out0, c2, spec_content(s@.skip(cur + 2)));
                    assert(out0 + seq![c2] =~= out@);
                }
                cur = cur + 2;
            } else if c2 == '\\' {
                out.append("\\");
                proof {
                    reveal_strlit("\\");
                    assert("\\"@ =~= seq!['\\']);
                    assert(tc.skip(2) =~= s@.skip(cur + 2));
                    lemma_prepend_all_push(out0, c2, spec_content(s@.skip(cur + 2)));
                    assert(out0 + seq![c2] =~= out@);
                }
                cur = cur + 2;
            } else {
                proof {
                    assert(spec_content(tc) is None);
                    assert(spec_parse_string(s@.skip(i as int)) is None);
                }
                return None;
            }
        } else {
            let piece = s.substring_char(cur, cur + 1);
            out.append(piece);
            proof {
                assert(piece@ =~= seq![c]);
                assert(tc.skip(1) =~= s@.skip(cur + 1));
                lemma_prepend_all_push(out0, c, spec_content(s@.skip(cur + 1)));
                assert(out0 + seq![c] =~= out@);
            }
            cur = cur + 1;
        }
    }
    proof {
        assert(s@.skip(n as int) =~= Seq::<char>::empty());
        assert(spec_content(s@.skip(cur as int)) is None);
        assert(spec_parse_string(s@.skip(i as int)) is None);
    }
    None
}

/// Decode the quoted string or `null` at position `i` of `s`.
fn parse_opt_at(s: &str, n: usize, i: usize) -> (r: Option<(Option<String>, usize)>)
    requires
        n == s@.len(),
        i <= n,
    ensures
        match r {
            Option::Some((v, j)) => i <= j <= n && spec_parse_opt(s@.skip(i as int))
                == Option::Some((crate::config::view_opt(v), s@.skip(j as int))),
            Option::None => spec_parse_opt(s@.skip(i as int)) is None,
        },
{
    match expect_lit(s, n, i, "null") {
        Some(j) => Some((None, j)),
        None => match parse_string_at(s, n, i) {
            Some((v, j)) => Some((Some(v), j)),
            None => None,
        },
    }
}

/// Decode the component mode at position `i` of `s`.
fn parse_mode_at(s: &str, n: usize, i: usize) -> (r: Option<(ComponentMode, usize)>)
    requires
        n == s@.len(),
        i <= n,
    ensures
        match r {
            Option::Some((m, j)) => i <= j <= n && spec_parse_mode(s@.skip(i as int))
                == Option::Some((m, s@.skip(j as int))),
            Option::None => spec_parse_mode(s@.skip(i as int)) is None,
        },
{
    match expect_lit(s, n, i, "\"source\"") {
        Some(j) => Some((ComponentMode::Source, j)),
        None => match expect_lit(s, n, i, "\"binary\"") {
            Some(j) => Some((ComponentMode::Binary, j)),
            None => None,
        },
    }
}

/// Decode the optional field introduced by `lit` at position `i` of `s`.
fn parse_field_at(s: &str, n: usize, i: usize, lit: &str) -> (r: Option<(Option<String>, usize)>)
    requires
        n == s@.len(),
        i <= n,
    ensures
        match r {
            Option::Some((v, j)) => i <= j <= n && spec_parse_field(s@.skip(i as int), lit@)
                == Option::Some((crate::config::view_opt(v), s@.skip(j as int))),
            Option::None => spec_parse_field(s@.skip(i as int), lit@) is None,
        },
{
    match expect_lit(s, n, i, lit) {
        None => Some((None, i)),
        Some(j) => match parse_string_at(s, n, j) {
            Some((v, j2)) => Some((Some(v), j2)),
            None => None,
        },
    }
}

/// Decode the component object at position `i` of `s`.
fn parse_comp_at(s: &str, n: usize, i: usize) -> (r: Option<(ComponentConfig, usize)>)
    requires
        n == s@.len(),
        i <= n,
    ensures
        match r {
            Option::Some((c, j)) => i <= j <= n && spec_parse_comp(s@.skip(i as int))
                == Option::Some((c@, s@.skip(j as int))),
            Option::None => spec_parse_comp(s@.skip(i as int)) is None,
        },
{
    let i0 = match expect_lit(s, n, i, "{\"mode\":") {
        Some(j) => j,
        None => {
            return None;
        },
    };
    let (mode, i1) = match parse_mode_at(s, n, i0) {
        Some(p) => p,
        None => {
            return None;
        },
    };
    let (lib, i2) = match parse_field_at(s, n, i1, ",\"lib\":") {
        Some(p) => p,
        None => {
            return None;
        },
    };
    let (qml, i3) = match parse_field_at(s, n, i2, ",\"qml\":") {
        Some(p) => p,
        None => {
            return None;
        },
    };
    let (plugin, i4) = match parse_field_at(s, n, i3, ",\"plugin\":") {
        Some(p) => p,
        None => {
            return None;
        },
    };
    let (headers, i5) = match parse_field_at(s, n, i4, ",\"headers\":") {
        Some(p) => p,
        None => {
            return None;
        },
    };
    let (bin, i6) = match parse_field_at(s, n, i5, ",\"bin\":") {
        Some(p) => p,
        None => {
            return None;
        },
    };
    let i7 = match expect_lit(s, n, i6, "}") {
        Some(j) => j,
        None => {
            return None;
        },
    };
    Some((ComponentConfig { mode, lib, qml, plugin, headers, bin }, i7))
}

/// Decode the mapping entry at position `i` of `s`.
fn parse_entry_at(s: &str, n: usize, i: usize) -> (r: Option<(crate::config::ComponentEntry, usize)>)
    requires
        n == s@.len(),
        i <= n,
    ensures
        match r {
            Option::Some((e, j)) => i < j <= n && spec_parse_entry(s@.skip(i as int))
                == Option::Some(((e.name@, e.config@), s@.skip(j as int))),
            Option::None => spec_parse_entry(s@.skip(i as int)) is None,
        },
{
    let (name, i1) = match parse_string_at(s, n, i) {
        Some(p) => p,
        None => {
            return None;
        },
    };
    let i2 = match expect_lit(s, n, i1, ":") {
        Some(j) => j,
        None => {
            return None;
        },
    };
    let (config, i3) = match parse_comp_at(s, n, i2) {
        Some(p) => p,
        None => {
            return None;
        },
    };
    Some((crate::config::ComponentEntry { name, config }, i3))
}

/// Finish a configuration decode: after the entries, exactly the outer
/// closing brace must remain, and no entry name may repeat.
pub open spec fn spec_finish(
    sv: Option<Seq<char>>,
    o: Option<(Seq<(Seq<char>, ComponentConfigV)>, Seq<char>)>,
) -> Option<DevConfigV> {
    match o {
        Option::None => Option::None,
        Option::Some((es, r3)) => {
            if r3 == seq!['}'] && spec_entries_wf(es) {
                Option::Some(DevConfigV { sdk_version: sv, components: es })
            } else {
                Option::None
            }
        },
    }
}

/// Decode a persisted configuration from its whole text.
pub fn parse_dev_config(s: &str) -> (r: Result<DevConfig, DevError>)
    ensures
        match r {
            Result::Ok(c) => spec_parse_config(s@) == Option::Some(c@) && c@.wf(),
            Result::Err(e) => spec_parse_config(s@) is None && e == DevError::Parse,
        },
{
    let n = s.unicode_len();
    proof {
        assert(s@.skip(0) =~= s@);
    }
    let i0 = match expect_lit(s, n, 0, "{\"sdk_version\":") {
        Some(j) => j,
        None => {
            return Err(DevError::Parse);
        },
    };
    let (sv, i1) = match parse_opt_at(s, n, i0) {
        Some(p) => p,
        None => {
            return Err(DevError::Parse);
        },
    };
    let i2 = match expect_lit(s, n, i1, ",\"components\":{") {
        Some(j) => j,
        None => {
            return Err(DevError::Parse);
        },
    };
    let ghost t2 = s@.skip(i2 as int);
    let ghost f0: nat = (t2.len() + 1) as nat;
    proof {
        assert(spec_parse_config(s@) == spec_finish(
            crate::config::view_opt(sv),
            spec_parse_entries(t2, f0),
        ));
    }
    let mut comps: Vec<crate::config::ComponentEntry> = Vec::new();
    let mut cur: usize = i2;
    let ghost mut fuel: nat = f0;
    proof {
        assert(spec_prepend_entries(
            Seq::<(Seq<char>, ComponentConfigV)>::empty(),
            spec_parse_entries(t2, f0),
        ) == spec_parse_entries(t2, f0)) by {
            match spec_parse_entries(t2, f0) {
                Option::Some((es, r)) => {
                    assert(Seq::<(Seq<char>, ComponentConfigV)>::empty() + es =~= es);
                },
                Option::None => {},
            }
        }
    }
    loop
        invariant_except_break
            fuel >= s@.skip(cur as int).len() + 1,
            spec_parse_entries(t2, f0) == spec_prepend_entries(
                comps@.map(
                    |k: int, e: crate::config::ComponentEntry| (e.name@, e.config@),
                ),
                spec_parse_entries(s@.skip(cur as int), fuel),
            ),
        invariant
            n == s@.len(),
            i2 <= cur <= n,
            t2 == s@.skip(i2 as int),
            f0 == (t2.len() + 1) as nat,
            spec_parse_config(s@) == spec_finish(
                crate::config::view_opt(sv),
                spec_parse_entries(t2, f0),
            ),
        ensures
            cur <= n,
            spec_parse_entries(t2, f0) == Option::Some(
                (
                    comps@.map(
                        |k: int, e: crate::config::ComponentEntry| (e.name@, e.config@),
                    ),
                    s@.skip(cur as int),
                ),
            ),
        decreases n - cur,
    {
        let ghost tc = s@.skip(cur as int);
        let ghost pv = comps@.map(
            |k: int, e: crate::config::ComponentEntry| (e.name@, e.config@),
        );
        if cur >= n {
            proof {
                assert(tc.len() == 0);
                assert(spec_parse_string(tc) is None);
                assert(spec_parse_entries(tc, fuel) is None);
                assert(spec_parse_config(s@) is None);
            }
            return Err(DevError::Parse);
        }
        proof {
            assert(tc[0] == s@[cur as int]);
        }
        if s.get_char(cur) == '}' {
            proof {
                assert(spec_parse_entries(tc, fuel) == Option::Some(
                    (Seq::<(Seq<char>, ComponentConfigV)>::empty(), s@.skip(cur + 1)),
                )) by {
                    assert(tc.skip(1) =~= s@.skip(cur + 1));
                }
                assert(pv + Seq::<(Seq<char>, ComponentConfigV)>::empty() =~= pv);
            }
            cur = cur + 1;
            break;
        }
        let (e, j) = match parse_entry_at(s, n, cur) {
            Some(p) => p,
            None => {
                proof {
                    assert(spec_parse_entries(tc, fuel) is None);
                    assert(spec_parse_config(s@) is None);
                }
                return Err(DevError::Parse);
            },
        };
        let ghost ev = (e.name@, e.config@);
        if j >= n {
            proof {
                assert(s@.skip(j as int).len() == 0);
                assert(spec_parse_entries(tc, fuel) is None);
                assert(spec_parse_config(s@) is None);
            }
            return Err(DevError::Parse);
        }
        proof {
            assert(s@.skip(j as int)[0] == s@[j as int]);
        }
        let c = s.get_char(j);
        comps.push(e);
        proof {
            assert(comps@.map(
                |k: int, e: crate::config::ComponentEntry| (e.name@, e.config@),
            ) =~= pv.push(ev));
        }
        if c == ',' {
            proof {
                assert(s@.skip(j as int).skip(1) =~= s@.skip(j + 1));
                let inner = spec_parse_entries(s@.skip(j + 1), (fuel - 1) as nat);
                assert(spec_parse_entries(tc, fuel) == spec_prepend_entries(seq![ev], inner))
                    by {
                    match inner {
                        Option::Some((es, r)) => {},
                        Option::None => {},
                    }
                }
                lemma_prepend_entries_push(pv, ev, inner);
                fuel = (fuel - 1) as nat;
            }
            cur = j + 1;
        } else if c == '}' {
            proof {
                assert(spec_parse_entries(tc, fuel) == Option::Some(
                    (seq![ev], s@.skip(j + 1)),
                )) by {
                    assert(s@.skip(j as int).skip(1) =~= s@.skip(j + 1));
                }
                assert(pv + seq![ev] =~= pv.push(ev));
            }
            cur = j + 1;
            break;
        } else {
            proof {
                assert(spec_parse_entries(tc, fuel) is None);
                assert(spec_parse_config(s@) is None);
            }
            return Err(DevError::Parse);
        }
    }
    if !(cur < n && n - cur == 1) {
        proof {
            assert(s@.skip(cur as int) != seq!['}']) by {
                if cur < n {
                    assert(s@.skip(cur as int).len() != 1);
                } else {
                    assert(s@.skip(cur as int).len() == 0);
                }
            }
            assert(spec_parse_config(s@) is None);
        }
        return Err(DevError::Parse);
    }
    proof {
        assert(s@.skip(cur as int)[0] == s@[cur as int]);
    }
    if s.get_char(cur) != '}' {
        proof {
            assert(s@.skip(cur as int) != seq!['}']) by {
                assert(s@.skip(cur as int)[0] != seq!['}'][0]);
            }
            assert(spec_parse_config(s@) is None);
        }
        return Err(DevError::Parse);
    }
    proof {
        assert(s@.skip(cur as int) =~= seq!['}']);
    }
    let m = comps.len();
    let mut a: usize = 0;
    while a < m
        invariant
            m == comps.len(),
            a <= m,
            spec_parse_config(s@) == spec_finish(
                crate::config::view_opt(sv),
                spec_parse_entries(t2, f0),
            ),
            spec_parse_entries(t2, f0) == Option::Some(
                (
                    comps@.map(
                        |k: int, e: crate::config::ComponentEntry| (e.name@, e.config@),
                    ),
                    s@.skip(cur as int),
                ),
            ),
            s@.skip(cur as int) == seq!['}'],
            forall|x: int, y: int|
                0 <= x < y < a ==> comps@[x].name@ != comps@[y].name@,
        decreases m - a,
    {
        let mut b: usize = 0;
        while b < a
            invariant
                m == comps.len(),
                a < m,
                b <= a,
                spec_parse_config(s@) == spec_finish(
                    crate::config::view_opt(sv),
                    spec_parse_entries(t2, f0),
                ),
                spec_parse_entries(t2, f0) == Option::Some(
                    (
                        comps@.map(
                            |k: int, e: crate::config::ComponentEntry| (e.name@, e.config@),
                        ),
                        s@.skip(cur as int),
                    ),
                ),
                s@.skip(cur as int) == seq!['}'],
                forall|x: int, y: int|
                    0 <= x < y < a ==> comps@[x].name@ != comps@[y].name@,
                forall|x: int| 0 <= x < b ==> comps@[x].name@ != comps@[a as int].name@,
            decreases a - b,
        {
            if strutil::str_eq(comps[b].name.as_str(), comps[a].name.as_str()) {
                proof {
                    let es = comps@.map(
                        |k: int, e: crate::config::ComponentEntry| (e.name@, e.config@),
                    );
                    assert(es[b as int].0 == es[a as int].0);
                    assert(!spec_entries_wf(es));
                    assert(spec_parse_config(s@) is None);
                }
                return Err(DevError::Parse);
            }
            b = b + 1;
        }
        a = a + 1;
    }
    let out = DevConfig { sdk_version: sv, components: comps };
    proof {
        let es = out@.components;
        assert(spec_entries_wf(es));
        assert(out@.wf());
        assert(spec_parse_config(s@) == Option::Some(out@));
    }
    Ok(out)
}

/// Decoding string content inverts escaping: the escaped characters, the
/// closing quote and whatever follows decode to the original characters
/// and that remainder.
proof fn lemma_content_of_escape(v: Seq<char>, rest: Seq<char>)
    ensures
        spec_content(spec_escape(v) + seq!['"'] + rest) == Option::Some((v, rest)),
    decreases v.len(),
{
    let t = spec_escape(v) + seq!['"'] + rest;
    if v.len() == 0 {
        assert(t =~= seq!['"'] + rest);
        assert(t[0] == '"');
        assert(t.skip(1) =~= rest);
        assert(v =~= Seq::<char>::empty());
    } else {
        let v2 = v.skip(1);
        let c = v[0];
        assert(spec_escape(v) == spec_esc_char(c) + spec_escape(v2));
        lemma_content_of_escape(v2, rest);
        if c == '"' {
            assert(t =~= seq!['\\', '"'] + (spec_escape(v2) + seq!['"'] + rest));
            assert(t[0] == '\\');
            assert(t[1] == '"');
            assert(t.skip(2) =~= spec_escape(v2) + seq!['"'] + rest);
            assert(seq![c] + v2 =~= v);
        } else if c == '\\' {
            assert(t =~= seq!['\\', '\\'] + (spec_escape(v2) + seq!['"'] + rest));
            assert(t[0] == '\\');
            assert(t[1] == '\\');
            assert(t.skip(2) =~= spec_escape(v2) + seq!['"'] + rest);
            assert(seq![c] + v2 =~= v);
        } else {
            assert(t =~= seq![c] + (spec_escape(v2) + seq!['"'] + rest));
            assert(t[0] == c);
            assert(t.skip(1) =~= spec_escape(v2) + seq!['"'] + rest);
            assert(seq![c] + v2 =~= v);
        }
    }
}

/// Decoding a quoted string inverts encoding one.
proof fn lemma_string_of_ser(v: Seq<char>, rest: Seq<char>)
    ensures
        spec_parse_string(spec_ser_string(v) + rest) == Option::Some((v, rest)),
{
    let t = spec_ser_string(v) + rest;
    assert(t[0] == '"');
    assert(t.skip(1) =~= spec_escape(v) + seq!['"'] + rest);
    lemma_content_of_escape(v, rest);
}

/// Stripping a literal consumes exactly that literal.
proof fn lemma_strip_of_lit(lit: Seq<char>, rest: Seq<char>)
    ensures
        spec_strip(lit + rest, lit) == Option::Some(rest),
{
    let t = lit + rest;
    assert(t.subrange(0, lit.len() as int) =~= lit);
    assert(t.skip(lit.len() as int) =~= rest);
}

/// Decoding the optional version inverts encoding it.
proof fn lemma_opt_of_ser(o: Option<Seq<char>>, rest: Seq<char>)
    ensures
        spec_parse_opt(spec_ser_opt(o) + rest) == Option::Some((o, rest)),
{
    match o {
        Option::None => {
            lemma_strip_of_lit("null"@, rest);
        },
        Option::Some(v) => {
            let t = spec_ser_string(v) + rest;
            assert(!strutil::spec_starts_with(t, "null"@)) by {
                reveal_strlit("null");
                if strutil::spec_starts_with(t, "null"@) {
                    assert(t.subrange(0, 4)[0] == "null"@[0]);
                    assert(t[0] == 'n');
                }
                assert(t[0] == '"');
            }
            lemma_string_of_ser(v, rest);
        },
    }
}

/// Decoding the mode inverts encoding it.
proof fn lemma_mode_of_ser(m: ComponentMode, rest: Seq<char>)
    ensures
        spec_parse_mode(spec_ser_mode(m) + rest) == Option::Some((m, rest)),
{
    reveal_strlit("\"source\"");
    reveal_strlit("\"binary\"");
    match m {
        ComponentMode::Source => {
            lemma_strip_of_lit("\"source\""@, rest);
        },
        ComponentMode::Binary => {
            let t = "\"binary\""@ + rest;
            assert(!strutil::spec_starts_with(t, "\"source\""@)) by {
                if strutil::spec_starts_with(t, "\"source\""@) {
                    assert(t.subrange(0, 8)[1] == "\"source\""@[1]);
                    assert(t[1] == 's');
                }
                assert(t[1] == 'b');
            }
            lemma_strip_of_lit("\"binary\""@, rest);
        },
    }
}

/// Decoding one optional field inverts encoding it, provided an absent
/// field's remainder does not itself begin with the field's key.
proof fn lemma_field_of_ser(lit: Seq<char>, o: Option<Seq<char>>, tail: Seq<char>)
    requires
        o is None ==> !strutil::spec_starts_with(tail, lit),
    ensures
        spec_parse_field(spec_ser_field(lit, o) + tail, lit) == Option::Some((o, tail)),
{
    match o {
        Option::None => {
            assert(spec_ser_field(lit, o) + tail =~= tail);
        },
        Option::Some(v) => {
            let t = spec_ser_field(lit, o) + tail;
            assert(t =~= lit + (spec_ser_string(v) + tail));
            lemma_strip_of_lit(lit, spec_ser_string(v) + tail);
            lemma_string_of_ser(v, tail);
        },
    }
}

/// Decoding a component object inverts encoding one.
proof fn lemma_comp_of_ser(c: ComponentConfigV, rest: Seq<char>)
    ensures
        spec_parse_comp(spec_ser_comp(c) + rest) == Option::Some((c, rest)),
{
    reveal_strlit(",\"lib\":");
    reveal_strlit(",\"qml\":");
    reveal_strlit(",\"plugin\":");
    reveal_strlit(",\"headers\":");
    reveal_strlit(",\"bin\":");
    let h = "{\"mode\":"@;
    let m = spec_ser_mode(c.mode);
    let lit1 = ",\"lib\":"@;
    let lit2 = ",\"qml\":"@;
    let lit3 = ",\"plugin\":"@;
    let lit4 = ",\"headers\":"@;
    let lit5 = ",\"bin\":"@;
    let f1 = spec_ser_field(lit1, c.lib);
    let f2 = spec_ser_field(lit2, c.qml);
    let f3 = spec_ser_field(lit3, c.plugin);
    let f4 = spec_ser_field(lit4, c.headers);
    let f5 = spec_ser_field(lit5, c.bin);
    let rem6 = seq!['}'] + rest;
    let rem5 = f5 + rem6;
    let rem4 = f4 + rem5;
    let rem3 = f3 + rem4;
    let rem2 = f2 + rem3;
    let rem1 = f1 + rem2;
    let rem0 = m + rem1;
    let p1 = h + m;
    let p2 = p1 + f1;
    let p3 = p2 + f2;
    let p4 = p3 + f3;
    let p5 = p4 + f4;
    let p6 = p5 + f5;
    assert(spec_ser_comp(c) == p6 + seq!['}']);
    vstd::seq_lib::lemma_concat_associative(p6, seq!['}'], rest);
    vstd::seq_lib::lemma_concat_associative(p5, f5, rem6);
    vstd::seq_lib::lemma_concat_associative(p4, f4, rem5);
    vstd::seq_lib::lemma_concat_associative(p3, f3, rem4);
    vstd::seq_lib::lemma_concat_associative(p2, f2, rem3);
    vstd::seq_lib::lemma_concat_associative(p1, f1, rem2);
    vstd::seq_lib::lemma_concat_associative(h, m, rem1);
    assert(spec_ser_comp(c) + rest == h + rem0);
    // The head of each remainder: the closing brace, or the comma and
    // key letter of the first present later field.
    assert(rem6[0] == '}');
    assert(rem5[0] == '}' || (rem5.len() >= 3 && rem5[0] == ',' && rem5[2] == 'b')) by {
        match c.bin {
            Option::Some(v) => {
                assert(rem5 =~= lit5 + (spec_ser_string(v) + rem6));
                assert(rem5[0] == lit5[0]);
                assert(rem5[2] == lit5[2]);
            },
            Option::None => {
                assert(rem5 =~= rem6);
            },
        }
    }
    assert(rem4[0] == '}' || (rem4.len() >= 3 && rem4[0] == ',' && (rem4[2] == 'b' || rem4[2]
        == 'h'))) by {
        match c.headers {
            Option::Some(v) => {
                assert(rem4 =~= lit4 + (spec_ser_string(v) + rem5));
                assert(rem4[0] == lit4[0]);
                assert(rem4[2] == lit4[2]);
            },
            Option::None => {
                assert(rem4 =~= rem5);
            },
        }
    }
    assert(rem3[0] == '}' || (rem3.len() >= 3 && rem3[0] == ',' && (rem3[2] == 'b' || rem3[2]
        == 'h' || rem3[2] == 'p'))) by {
        match c.plugin {
            Option::Some(v) => {
                assert(rem3 =~= lit3 + (spec_ser_string(v) + rem4));
                assert(rem3[0] == lit3[0]);
                assert(rem3[2] == lit3[2]);
            },
            Option::None => {
                assert(rem3 =~= rem4);
            },
        }
    }
    assert(rem2[0] == '}' || (rem2.len() >= 3 && rem2[0] == ',' && (rem2[2] == 'b' || rem2[2]
        == 'h' || rem2[2] == 'p' || rem2[2] == 'q'))) by {
        match c.qml {
            Option::Some(v) => {
                assert(rem2 =~= lit2 + (spec_ser_string(v) + rem3));
                assert(rem2[0] == lit2[0]);
                assert(rem2[2] == lit2[2]);
            },
            Option::None => {
                assert(rem2 =~= rem3);
            },
        }
    }
    // Decode, step by step.
    lemma_strip_of_lit(h, rem0);
    lemma_mode_of_ser(c.mode, rem1);
    assert(c.lib is None ==> !strutil::spec_starts_with(rem2, lit1)) by {
        if strutil::spec_starts_with(rem2, lit1) {
            assert(rem2.subrange(0, 7)[0] == lit1[0]);
            assert(rem2.subrange(0, 7)[2] == lit1[2]);
            assert(rem2[0] == ',' && rem2[2] == 'l');
        }
    }
    lemma_field_of_ser(lit1, c.lib, rem2);
    assert(c.qml is None ==> !strutil::spec_starts_with(rem3, lit2)) by {
        if strutil::spec_starts_with(rem3, lit2) {
            assert(rem3.subrange(0, 7)[0] == lit2[0]);
            assert(rem3.subrange(0, 7)[2] == lit2[2]);
            assert(rem3[0] == ',' && rem3[2] == 'q');
        }
    }
    lemma_field_of_ser(lit2, c.qml, rem3);
    assert(c.plugin is None ==> !strutil::spec_starts_with(rem4, lit3)) by {
        if strutil::spec_starts_with(rem4, lit3) {
            assert(rem4.subrange(0, 10)[0] == lit3[0]);
            assert(rem4.subrange(0, 10)[2] == lit3[2]);
            assert(rem4[0] == ',' && rem4[2] == 'p');
        }
    }
    lemma_field_of_ser(lit3, c.plugin, rem4);
    assert(c.headers is None ==> !strutil::spec_starts_with(rem5, lit4)) by {
        if strutil::spec_starts_with(rem5, lit4) {
            assert(rem5.subrange(0, 11)[0] == lit4[0]);
            assert(rem5.subrange(0, 11)[2] == lit4[2]);
            assert(rem5[0] == ',' && rem5[2] == 'h');
        }
    }
    lemma_field_of_ser(lit4, c.headers, rem5);
    assert(c.bin is None ==> !strutil::spec_starts_with(rem6, lit5)) by {
        if strutil::spec_starts_with(rem6, lit5) {
            assert(rem6.subrange(0, 7)[0] == lit5[0]);
            assert(rem6[0] == ',');
        }
    }
    lemma_field_of_ser(lit5, c.bin, rem6);
    assert(spec_strip(rem6, "}"@) == Option::Some(rest)) by {
        reveal_strlit("}");
        assert("}"@ =~= seq!['}']);
        lemma_strip_of_lit(seq!['}'], rest);
    }
    assert(ComponentConfigV {
        mode: c.mode,
        lib: c.lib,
        qml: c.qml,
        plugin: c.plugin,
        headers: c.headers,
        bin: c.bin,
    } =~= c);
}

/// Decoding one mapping entry inverts encoding one.
proof fn lemma_entry_of_ser(e: (Seq<char>, ComponentConfigV), rest: Seq<char>)
    ensures
        spec_parse_entry(spec_ser_entry(e) + rest) == Option::Some((e, rest)),
{
    let t = spec_ser_entry(e) + rest;
    let mid = seq![':'] + (spec_ser_comp(e.1) + rest);
    assert(t =~= spec_ser_string(e.0) + mid) by {
        vstd::seq_lib::lemma_concat_associative(
            spec_ser_string(e.0) + seq![':'],
            spec_ser_comp(e.1),
            rest,
        );
        vstd::seq_lib::lemma_concat_associative(
            spec_ser_string(e.0),
            seq![':'],
            spec_ser_comp(e.1) + rest,
        );
    }
    lemma_string_of_ser(e.0, mid);
    assert(spec_strip(mid, ":"@) == Option::Some(spec_ser_comp(e.1) + rest)) by {
        reveal_strlit(":");
        assert(":"@ =~= seq![':']);
        lemma_strip_of_lit(seq![':'], spec_ser_comp(e.1) + rest);
    }
    lemma_comp_of_ser(e.1, rest);
    assert((e.0, e.1) == e);
}

/// An encoded entry list is at least as long as the list itself.
proof fn lemma_ser_entries_len(comps: Seq<(Seq<char>, ComponentConfigV)>)
    ensures
        spec_ser_entries(comps).len() >= comps.len(),
        spec_ser_more(comps).len() >= comps.len(),
    decreases comps.len(),
{
    if comps.len() > 0 {
        lemma_ser_entries_len(comps.drop_first());
        assert(spec_ser_string(comps.first().0).len() >= 2);
    }
}

/// Decoding the entry list inverts encoding it, given fuel for every
/// entry.
#[verifier::rlimit(100)]
proof fn lemma_entries_of_ser(
    comps: Seq<(Seq<char>, ComponentConfigV)>,
    rest: Seq<char>,
    fuel: nat,
)
    requires
        fuel >= comps.len() + 1,
    ensures
        spec_parse_entries(spec_ser_entries(comps) + seq!['}'] + rest, fuel) == Option::Some(
            (comps, rest),
        ),
    decreases comps.len(),
{
    let t = spec_ser_entries(comps) + seq!['}'] + rest;
    let br = seq!['}'] + rest;
    if comps.len() == 0 {
        assert(t =~= seq!['}'] + rest);
        assert(t[0] == '}');
        assert(t.skip(1) =~= rest);
        assert(comps =~= Seq::<(Seq<char>, ComponentConfigV)>::empty());
    } else {
        let e = comps.first();
        let cs = comps.drop_first();
        let ee = spec_ser_entry(e);
        let mm = spec_ser_more(cs);
        let tail = mm + br;
        assert(spec_ser_entries(comps) == ee + mm);
        vstd::seq_lib::lemma_concat_associative(ee + mm, seq!['}'], rest);
        vstd::seq_lib::lemma_concat_associative(ee, mm, br);
        assert(t == ee + tail);
        assert(spec_ser_string(e.0)[0] == '"');
        assert(ee[0] == '"');
        assert(spec_ser_string(e.0).len() >= 2);
        assert(ee.len() >= 2);
        assert(t[0] == '"');
        lemma_entry_of_ser(e, tail);
        if cs.len() == 0 {
            assert(tail =~= seq!['}'] + rest);
            assert(tail[0] == '}');
            assert(tail.skip(1) =~= rest);
            assert(seq![e] =~= comps);
        } else {
            let e2 = spec_ser_entry(cs.first());
            let m2 = spec_ser_more(cs.drop_first());
            assert(mm == seq![','] + e2 + m2);
            vstd::seq_lib::lemma_concat_associative(seq![','] + e2, m2, br);
            vstd::seq_lib::lemma_concat_associative(seq![','], e2, m2 + br);
            assert(tail == seq![','] + (e2 + (m2 + br)));
            assert(tail.len() >= 1);
            assert(tail[0] == ',');
            assert(tail.skip(1) =~= e2 + (m2 + br));
            let ih_in = spec_ser_entries(cs) + seq!['}'] + rest;
            assert(spec_ser_entries(cs) == e2 + m2);
            vstd::seq_lib::lemma_concat_associative(e2 + m2, seq!['}'], rest);
            vstd::seq_lib::lemma_concat_associative(e2, m2, br);
            assert(ih_in == e2 + (m2 + br));
            lemma_entries_of_ser(cs, rest, (fuel - 1) as nat);
            assert(seq![e] + cs =~= comps);
        }
    }
}

/// Decoding inverts encoding: the persisted text of any well-formed
/// configuration is read back as exactly that configuration, so saving,
/// loading and saving again always reproduces byte-identical text.
pub proof fn lemma_codec_round_trip(c: DevConfigV)
    requires
        c.wf(),
    ensures
        spec_parse_config(spec_ser_config(c)) == Option::Some(c),
{
    let h1 = "{\"sdk_version\":"@;
    let h2 = ",\"components\":{"@;
    let sv = spec_ser_opt(c.sdk_version);
    let es = spec_ser_entries(c.components);
    reveal_strlit("}}");
    assert("}}"@ =~= seq!['}'] + seq!['}']);
    let rem2 = es + (seq!['}'] + seq!['}']);
    let rem1 = h2 + rem2;
    let rem0 = sv + rem1;
    let p1 = h1 + sv;
    let p2 = p1 + h2;
    let p3 = p2 + es;
    assert(spec_ser_config(c) == p3 + "}}"@);
    vstd::seq_lib::lemma_concat_associative(p2, es, seq!['}'] + seq!['}']);
    vstd::seq_lib::lemma_concat_associative(p1, h2, rem2);
    vstd::seq_lib::lemma_concat_associative(h1, sv, rem1);
    assert(spec_ser_config(c) == h1 + rem0);
    lemma_strip_of_lit(h1, rem0);
    lemma_opt_of_ser(c.sdk_version, rem1);
    lemma_strip_of_lit(h2, rem2);
    vstd::seq_lib::lemma_concat_associative(es, seq!['}'], seq!['}']);
    lemma_ser_entries_len(c.components);
    lemma_entries_of_ser(c.components, seq!['}'], (rem2.len() + 1) as nat);
    assert(spec_entries_wf(c.components));
    assert(DevConfigV { sdk_version: c.sdk_version, components: c.components } =~= c);
}

impl DevConfig {
    /// Read a configuration back from its persisted text, or the empty
    /// configuration when no text is persisted.  Malformed text is
    /// refused, never repaired.
    pub fn load(text: Option<&str>) -> (r: Result<DevConfig, DevError>)
        ensures
            match text {
                Option::Some(t) => match r {
                    Result::Ok(c) => spec_parse_config(t@) == Option::Some(c@) && c@.wf(),
                    Result::Err(e) => spec_parse_config(t@) is None && e == DevError::Parse,
                },
                Option::None => match r {
                    Result::Ok(c) => c@.sdk_version is None && c@.components
                        =~= Seq::<(Seq<char>, ComponentConfigV)>::empty() && c@.wf(),
                    Result::Err(_) => false,
                },
            },
    {
        match text {
            Some(t) => parse_dev_config(t),
            None => Ok(DevConfig::new()),
        }
    }
}

} // verus!
