//! The qpwgraph XML shape of a patchbay file, as text: a `patchbay` element
//! with its version and name, and one `item` per rule naming its output and
//! input by node and port name. Attribute values are escaped as XML requires.

use vstd::prelude::*;
use crate::graph::{NodeType, PortType};
use crate::ids::PortId;
use crate::patchbay::{conn_view, conns_view, ConnView, PatchConnection, Patchbay};
use crate::registry::{all_digits, digits_value, parse_unsigned, spec_parse_unsigned};
use crate::text::{
    append_str, chars_of, chars_eq, chars_eq_str, decimal_chars, occurs_at, occurs_at_exec,
    spec_decimal_chars, string_from_chars,
};

verus! {

/// What a file keeps of a rule: pinning, node and port type, and the node
/// and port names of its two ends.
pub type NamedRule = (bool, NodeType, PortType, Seq<char>, Seq<char>, Seq<char>, Seq<char>);

pub open spec fn named_rule(c: ConnView) -> NamedRule {
    (c.2, c.3, c.4, c.5, c.6, c.7, c.8)
}

pub open spec fn named_rules(s: Seq<ConnView>) -> Seq<NamedRule> {
    s.map_values(|c: ConnView| named_rule(c))
}

/// One character as an attribute value holds it: `<`, `>`, `&`, `'`, `"`
/// and carriage return as entities, the rest as they are.
pub open spec fn esc_char(c: char) -> Seq<char> {
    if c == '<' {
        "&lt;"@
    } else if c == '>' {
        "&gt;"@
    } else if c == '&' {
        "&amp;"@
    } else if c == '\'' {
        "&apos;"@
    } else if c == '"' {
        "&quot;"@
    } else if c == '\r' {
        "&#13;"@
    } else {
        seq![c]
    }
}

/// Text escaped for an attribute value, as `quick_xml::escape::escape`
/// escapes it.
pub open spec fn xml_escape(s: Seq<char>) -> Seq<char>
    decreases s.len(),
{
    if s.len() == 0 {
        Seq::empty()
    } else {
        esc_char(s[0]) + xml_escape(s.drop_first())
    }
}

/// The character an entity at the start of `t` stands for, and its length.
pub open spec fn entity_at(t: Seq<char>) -> Option<(char, int)> {
    if occurs_at(t, "&lt;"@, 0) {
        Some(('<', 4))
    } else if occurs_at(t, "&gt;"@, 0) {
        Some(('>', 4))
    } else if occurs_at(t, "&amp;"@, 0) {
        Some(('&', 5))
    } else if occurs_at(t, "&apos;"@, 0) {
        Some(('\'', 6))
    } else if occurs_at(t, "&quot;"@, 0) {
        Some(('"', 6))
    } else if occurs_at(t, "&#13;"@, 0) {
        Some(('\r', 5))
    } else {
        None
    }
}

/// Whether a character must not stand unescaped in an attribute value.
pub open spec fn is_special(c: char) -> bool {
    c == '<' || c == '>' || c == '&' || c == '\'' || c == '"' || c == '\r'
}

/// An attribute value at the start of `t`, read up to its closing quote:
/// the text it holds and where the quote stands. `None` when the quote is
/// missing or the value is not escaped as `xml_escape` escapes.
pub open spec fn spec_unescape(t: Seq<char>) -> Option<(Seq<char>, int)>
    decreases t.len(),
{
    if t.len() == 0 {
        None
    } else if t[0] == '"' {
        Some((Seq::empty(), 0))
    } else if t[0] == '&' {
        match entity_at(t) {
            Some((c, n)) => if 0 < n <= t.len() {
                match spec_unescape(t.subrange(n, t.len() as int)) {
                    Some((s, q)) => Some((seq![c] + s, q + n)),
                    None => None,
                }
            } else {
                None
            },
            None => None,
        }
    } else if is_special(t[0]) {
        None
    } else {
        match spec_unescape(t.drop_first()) {
            Some((s, q)) => Some((seq![t[0]] + s, q + 1)),
            None => None,
        }
    }
}

/// An escaped value followed by its closing quote reads back as the value.
pub proof fn lemma_unescape_escaped(s: Seq<char>, r: Seq<char>)
    ensures
        spec_unescape(xml_escape(s) + seq!['"'] + r) == Some((s, xml_escape(s).len() as int)),
    decreases s.len(),
{
    reveal_strlit("&lt;");
    reveal_strlit("&gt;");
    reveal_strlit("&amp;");
    reveal_strlit("&apos;");
    reveal_strlit("&quot;");
    reveal_strlit("&#13;");
    let t = xml_escape(s) + seq!['"'] + r;
    if s.len() == 0 {
        assert(t[0] == '"');
    } else {
        let c = s[0];
        let e = esc_char(c);
        let rest = s.drop_first();
        lemma_unescape_escaped(rest, r);
        let tail = xml_escape(rest) + seq!['"'] + r;
        assert(t =~= e + tail);
        assert(t.subrange(e.len() as int, t.len() as int) =~= tail);
        if is_special(c) {
            assert(t[0] == '&');
            assert(t.subrange(0, e.len() as int) =~= e);
            assert(t[1] == e[1]);
            assert(t[2] == e[2]);
            assert(entity_at(t) == Some((c, e.len() as int)));
        } else {
            assert(t[0] == c);
            assert(t.drop_first() =~= tail);
        }
        assert(seq![c] + rest =~= s);
    }
}

/// What reads back as a value is that value escaped, then the quote.
pub proof fn lemma_unescape_sound(t: Seq<char>)
    requires
        spec_unescape(t) is Some,
    ensures
        ({
            let (s, q) = spec_unescape(t)->Some_0;
            &&& 0 <= q < t.len()
            &&& t[q] == '"'
            &&& t.subrange(0, q) == xml_escape(s)
        }),
    decreases t.len(),
{
    reveal_strlit("&lt;");
    reveal_strlit("&gt;");
    reveal_strlit("&amp;");
    reveal_strlit("&apos;");
    reveal_strlit("&quot;");
    reveal_strlit("&#13;");
    if t[0] == '"' {
        assert(t.subrange(0, 0) =~= xml_escape(Seq::empty()));
    } else if t[0] == '&' {
        let (c, n) = entity_at(t)->Some_0;
        let tail = t.subrange(n, t.len() as int);
        lemma_unescape_sound(tail);
        let (s, q) = spec_unescape(tail)->Some_0;
        assert(t.subrange(0, n) =~= esc_char(c));
        assert((seq![c] + s).drop_first() =~= s);
        assert(t.subrange(0, q + n) =~= t.subrange(0, n) + tail.subrange(0, q));
    } else {
        let tail = t.drop_first();
        lemma_unescape_sound(tail);
        let (s, q) = spec_unescape(tail)->Some_0;
        assert((seq![t[0]] + s).drop_first() =~= s);
        assert(t.subrange(0, q + 1) =~= seq![t[0]] + tail.subrange(0, q));
    }
}


/// `lit`, then `value` escaped, then the closing quote.
pub open spec fn attr(lit: Seq<char>, value: Seq<char>) -> Seq<char> {
    lit + xml_escape(value) + seq!['"']
}

/// `lit` at the start of `t`, then a quoted value: the value and how much
/// of `t` the three take.
pub open spec fn spec_read_attr(t: Seq<char>, lit: Seq<char>) -> Option<(Seq<char>, int)> {
    if occurs_at(t, lit, 0) {
        match spec_unescape(t.subrange(lit.len() as int, t.len() as int)) {
            Some((s, q)) => Some((s, lit.len() + q + 1)),
            None => None,
        }
    } else {
        None
    }
}

/// Attributes one after another: `lits[i]` with `values[i]`.
pub open spec fn attrs_xml(lits: Seq<Seq<char>>, values: Seq<Seq<char>>) -> Seq<char>
    decreases lits.len(),
{
    if lits.len() == 0 {
        Seq::empty()
    } else {
        attr(lits[0], values[0]) + attrs_xml(lits.drop_first(), values.drop_first())
    }
}

/// The values of attributes `lits`, read one after another from the start
/// of `t`, and how much of `t` they take.
pub open spec fn spec_read_attrs(t: Seq<char>, lits: Seq<Seq<char>>) -> Option<(Seq<Seq<char>>, int)>
    decreases lits.len(),
{
    if lits.len() == 0 {
        Some((Seq::empty(), 0))
    } else {
        match spec_read_attr(t, lits[0]) {
            Some((v, n)) => if 0 <= n <= t.len() {
                match spec_read_attrs(t.subrange(n, t.len() as int), lits.drop_first()) {
                    Some((vs, m)) => Some((seq![v] + vs, n + m)),
                    None => None,
                }
            } else {
                None
            },
            None => None,
        }
    }
}

pub proof fn lemma_read_attr_written(lit: Seq<char>, v: Seq<char>, r: Seq<char>)
    ensures
        spec_read_attr(attr(lit, v) + r, lit) == Some((v, attr(lit, v).len() as int)),
{
    let t = attr(lit, v) + r;
    assert(t.subrange(0, lit.len() as int) =~= lit);
    assert(t.subrange(lit.len() as int, t.len() as int) =~= xml_escape(v) + seq!['"'] + r);
    lemma_unescape_escaped(v, r);
}

pub proof fn lemma_read_attr_sound(t: Seq<char>, lit: Seq<char>)
    requires
        spec_read_attr(t, lit) is Some,
    ensures
        ({
            let (v, n) = spec_read_attr(t, lit)->Some_0;
            &&& lit.len() < n <= t.len()
            &&& t.subrange(0, n) == attr(lit, v)
        }),
{
    let tail = t.subrange(lit.len() as int, t.len() as int);
    lemma_unescape_sound(tail);
    let (v, q) = spec_unescape(tail)->Some_0;
    assert(t.subrange(0, lit.len() + q + 1) =~= t.subrange(0, lit.len() as int) + tail.subrange(0, q) + seq![tail[q]]);
}

pub proof fn lemma_read_attrs_written(lits: Seq<Seq<char>>, values: Seq<Seq<char>>, r: Seq<char>)
    requires
        values.len() == lits.len(),
    ensures
        spec_read_attrs(attrs_xml(lits, values) + r, lits) == Some((values, attrs_xml(lits, values).len() as int)),
    decreases lits.len(),
{
    if lits.len() > 0 {
        let a = attr(lits[0], values[0]);
        let rest = attrs_xml(lits.drop_first(), values.drop_first()) + r;
        let t = attrs_xml(lits, values) + r;
        assert(t =~= a + rest);
        lemma_read_attr_written(lits[0], values[0], rest);
        assert(t.subrange(a.len() as int, t.len() as int) =~= rest);
        lemma_read_attrs_written(lits.drop_first(), values.drop_first(), r);
        assert(seq![values[0]] + values.drop_first() =~= values);
    } else {
        assert(values =~= Seq::<Seq<char>>::empty());
    }
}

pub proof fn lemma_read_attrs_sound(t: Seq<char>, lits: Seq<Seq<char>>)
    requires
        spec_read_attrs(t, lits) is Some,
    ensures
        ({
            let (vs, n) = spec_read_attrs(t, lits)->Some_0;
            &&& vs.len() == lits.len()
            &&& 0 <= n <= t.len()
            &&& t.subrange(0, n) == attrs_xml(lits, vs)
        }),
    decreases lits.len(),
{
    if lits.len() == 0 {
        assert(t.subrange(0, 0) =~= Seq::<char>::empty());
    } else {
        lemma_read_attr_sound(t, lits[0]);
        let (v, n) = spec_read_attr(t, lits[0])->Some_0;
        let tail = t.subrange(n, t.len() as int);
        lemma_read_attrs_sound(tail, lits.drop_first());
        let (vs, m) = spec_read_attrs(tail, lits.drop_first())->Some_0;
        let all = seq![v] + vs;
        assert(all[0] == v);
        assert(all.drop_first() =~= vs);
        assert(t.subrange(0, n + m) =~= t.subrange(0, n) + tail.subrange(0, m));
    }
}


pub open spec fn node_type_word(t: NodeType) -> Seq<char> {
    match t {
        NodeType::PipeWire => "pipewire"@,
        NodeType::AlsaMidi => "alsa"@,
        NodeType::Effect => "effect"@,
        NodeType::WindowsAudioEndpoint => "windows-endpoint"@,
        NodeType::WindowsAudioSession => "windows-session"@,
        NodeType::WindowsMidi => "windows-midi"@,
        NodeType::Unknown => "unknown"@,
    }
}

pub open spec fn node_type_of_word(w: Seq<char>) -> Option<NodeType> {
    if w == node_type_word(NodeType::PipeWire) {
        Some(NodeType::PipeWire)
    } else if w == node_type_word(NodeType::AlsaMidi) {
        Some(NodeType::AlsaMidi)
    } else if w == node_type_word(NodeType::Effect) {
        Some(NodeType::Effect)
    } else if w == node_type_word(NodeType::WindowsAudioEndpoint) {
        Some(NodeType::WindowsAudioEndpoint)
    } else if w == node_type_word(NodeType::WindowsAudioSession) {
        Some(NodeType::WindowsAudioSession)
    } else if w == node_type_word(NodeType::WindowsMidi) {
        Some(NodeType::WindowsMidi)
    } else if w == node_type_word(NodeType::Unknown) {
        Some(NodeType::Unknown)
    } else {
        None
    }
}

pub open spec fn port_type_word(t: PortType) -> Seq<char> {
    match t {
        PortType::Audio => "pipewire-audio"@,
        PortType::Video => "pipewire-video"@,
        PortType::MidiJack => "pipewire-midi"@,
        PortType::MidiAlsa => "alsa-midi"@,
        PortType::Unknown => "unknown"@,
    }
}

pub open spec fn port_type_of_word(w: Seq<char>) -> Option<PortType> {
    if w == port_type_word(PortType::Audio) {
        Some(PortType::Audio)
    } else if w == port_type_word(PortType::Video) {
        Some(PortType::Video)
    } else if w == port_type_word(PortType::MidiJack) {
        Some(PortType::MidiJack)
    } else if w == port_type_word(PortType::MidiAlsa) {
        Some(PortType::MidiAlsa)
    } else if w == port_type_word(PortType::Unknown) {
        Some(PortType::Unknown)
    } else {
        None
    }
}

pub open spec fn bool_word(b: bool) -> Seq<char> {
    if b {
        "true"@
    } else {
        "false"@
    }
}

pub open spec fn bool_of_word(w: Seq<char>) -> Option<bool> {
    if w == bool_word(true) {
        Some(true)
    } else if w == bool_word(false) {
        Some(false)
    } else {
        None
    }
}

/// A version number in its canonical decimal spelling.
pub open spec fn version_of_word(w: Seq<char>) -> Option<u32> {
    match spec_parse_unsigned(w, u32::MAX as nat) {
        Some(n) => if spec_decimal_chars(n) == w {
            Some(n as u32)
        } else {
            None
        },
        None => None,
    }
}

proof fn lemma_words(nt: NodeType, pt: PortType, b: bool)
    ensures
        node_type_of_word(node_type_word(nt)) == Some(nt),
        port_type_of_word(port_type_word(pt)) == Some(pt),
        bool_of_word(bool_word(b)) == Some(b),
{
    reveal_strlit("pipewire");
    reveal_strlit("alsa");
    reveal_strlit("effect");
    reveal_strlit("windows-endpoint");
    reveal_strlit("windows-session");
    reveal_strlit("windows-midi");
    reveal_strlit("unknown");
    reveal_strlit("pipewire-audio");
    reveal_strlit("pipewire-video");
    reveal_strlit("pipewire-midi");
    reveal_strlit("alsa-midi");
    reveal_strlit("true");
    reveal_strlit("false");
    assert("pipewire"@.len() == 8);
    assert("alsa"@.len() == 4);
    assert("effect"@.len() == 6);
    assert("windows-endpoint"@.len() == 16);
    assert("windows-session"@.len() == 15);
    assert("windows-midi"@.len() == 12);
    assert("unknown"@.len() == 7);
    assert("pipewire-audio"@.len() == 14);
    assert("pipewire-video"@.len() == 14);
    assert("pipewire-midi"@.len() == 13);
    assert("alsa-midi"@.len() == 9);
    assert("true"@.len() == 4);
    assert("false"@.len() == 5);
    assert("pipewire-audio"@[9] != "pipewire-video"@[9]);
    match nt {
        NodeType::PipeWire => {},
        NodeType::AlsaMidi => {},
        NodeType::Effect => {},
        NodeType::WindowsAudioEndpoint => {},
        NodeType::WindowsAudioSession => {},
        NodeType::WindowsMidi => {},
        NodeType::Unknown => {},
    }
    match pt {
        PortType::Audio => {},
        PortType::Video => {},
        PortType::MidiJack => {},
        PortType::MidiAlsa => {},
        PortType::Unknown => {},
    }
}

proof fn lemma_decimal_digits(n: nat)
    ensures
        all_digits(spec_decimal_chars(n)),
        digits_value(spec_decimal_chars(n)) == n,
    decreases n,
{
    let d = spec_decimal_chars(n);
    let k = n % 10;
    assert(((48 + k) as char) as int == 48 + k);
    assert('0' as int == 48);
    assert(d.last() == ((48 + k) as char));
    if n < 10 {
        assert(d.drop_last() =~= Seq::<char>::empty());
        assert(digits_value(d) == digits_value(d.drop_last()) * 10 + ((d.last() as int - '0' as int) as nat));
    } else {
        lemma_decimal_digits(n / 10);
        assert(d.drop_last() =~= spec_decimal_chars(n / 10));
        assert(digits_value(d) == digits_value(d.drop_last()) * 10 + ((d.last() as int - '0' as int) as nat));
        assert((n / 10) * 10 + k == n);
        assert forall|i: int| 0 <= i < d.len() implies '0' <= #[trigger] d[i] <= '9' by {
            if i < d.len() - 1 {
                assert(d[i] == spec_decimal_chars(n / 10)[i]);
            }
        }
    }
}

proof fn lemma_version_word(v: u32)
    ensures
        version_of_word(spec_decimal_chars(v as nat)) == Some(v),
{
    lemma_decimal_digits(v as nat);
}


/// The attributes that open a file: its version and its name.
pub open spec fn header_lits() -> Seq<Seq<char>> {
    seq!["<!DOCTYPE patchbay>\n<patchbay version=\""@, " name=\""@]
}

/// What stands between the name and the first rule.
pub open spec fn items_start() -> Seq<char> {
    ">\n <items>\n"@
}

/// The attributes of one rule, in the order a file holds them.
pub open spec fn item_lits() -> Seq<Seq<char>> {
    seq![
        "  <item node-type=\""@,
        " port-type=\""@,
        " pinned=\""@,
        ">\n   <output node=\""@,
        " port=\""@,
        "/>\n   <input node=\""@,
        " port=\""@,
    ]
}

/// What closes one rule.
pub open spec fn item_end() -> Seq<char> {
    "/>\n  </item>\n"@
}

/// What closes a file.
pub open spec fn footer() -> Seq<char> {
    " </items>\n</patchbay>\n"@
}

/// The attribute values of a rule, in the order of `item_lits`.
pub open spec fn rule_values(r: NamedRule) -> Seq<Seq<char>> {
    seq![node_type_word(r.1), port_type_word(r.2), bool_word(r.0), r.3, r.4, r.5, r.6]
}

/// The rule that attribute values spell, if they spell one.
pub open spec fn rule_of_values(vs: Seq<Seq<char>>) -> Option<NamedRule> {
    if vs.len() == 7 {
        match (node_type_of_word(vs[0]), port_type_of_word(vs[1]), bool_of_word(vs[2])) {
            (Some(nt), Some(pt), Some(b)) => Some((b, nt, pt, vs[3], vs[4], vs[5], vs[6])),
            _ => None,
        }
    } else {
        None
    }
}

/// One rule as a file holds it.
pub open spec fn item_xml(r: NamedRule) -> Seq<char> {
    attrs_xml(item_lits(), rule_values(r)) + item_end()
}

/// The rules, one after another.
pub open spec fn items_xml(rs: Seq<NamedRule>) -> Seq<char>
    decreases rs.len(),
{
    if rs.len() == 0 {
        Seq::empty()
    } else {
        item_xml(rs[0]) + items_xml(rs.drop_first())
    }
}

/// A patchbay file: the header with version and name, the rules, the footer.
pub open spec fn spec_qpwgraph_xml(version: u32, name: Seq<char>, rules: Seq<NamedRule>) -> Seq<char> {
    attrs_xml(header_lits(), seq![spec_decimal_chars(version as nat), name]) + items_start()
        + items_xml(rules) + footer()
}

/// The rules at the start of `t`, up to and with the footer, which must end `t`.
pub open spec fn spec_read_items(t: Seq<char>) -> Option<Seq<NamedRule>>
    decreases t.len(),
{
    if t == footer() {
        Some(Seq::empty())
    } else {
        match spec_read_attrs(t, item_lits()) {
            Some((vs, n)) => match rule_of_values(vs) {
                Some(r) => if occurs_at(t, item_end(), n) && 0 < n + item_end().len() {
                    match spec_read_items(t.subrange(n + item_end().len(), t.len() as int)) {
                        Some(rs) => Some(seq![r] + rs),
                        None => None,
                    }
                } else {
                    None
                },
                None => None,
            },
            None => None,
        }
    }
}

/// What a patchbay file holds: version, name and rules; `None` for text
/// that is not a file in the shape `spec_qpwgraph_xml` writes.
pub open spec fn spec_read_qpwgraph(t: Seq<char>) -> Option<(u32, Seq<char>, Seq<NamedRule>)> {
    match spec_read_attrs(t, header_lits()) {
        Some((vs, n)) => match version_of_word(vs[0]) {
            Some(v) => if occurs_at(t, items_start(), n) {
                match spec_read_items(t.subrange(n + items_start().len(), t.len() as int)) {
                    Some(rs) => Some((v, vs[1], rs)),
                    None => None,
                }
            } else {
                None
            },
            None => None,
        },
        None => None,
    }
}

proof fn lemma_rule_values(r: NamedRule)
    ensures
        rule_of_values(rule_values(r)) == Some(r),
{
    lemma_words(r.1, r.2, r.0);
}

proof fn lemma_rule_of_values(vs: Seq<Seq<char>>)
    requires
        rule_of_values(vs) is Some,
    ensures
        rule_values(rule_of_values(vs)->Some_0) == vs,
{
    assert(rule_values(rule_of_values(vs)->Some_0) =~= vs);
}

proof fn lemma_item_not_footer(r: NamedRule, rest: Seq<char>)
    ensures
        item_xml(r) + rest != footer(),
{
    reveal_strlit("  <item node-type=\"");
    reveal_strlit(" </items>\n</patchbay>\n");
    let lit = item_lits()[0];
    let t = item_xml(r) + rest;
    let a = attr(lit, rule_values(r)[0]);
    assert(lit.len() == 19);
    assert(t[1] == a[1]);
    assert(a[1] == lit[1]);
    assert(lit[1] == ' ');
    assert(footer()[1] == '<');
}

proof fn lemma_items_written(rs: Seq<NamedRule>)
    ensures
        spec_read_items(items_xml(rs) + footer()) == Some(rs),
    decreases rs.len(),
{
    reveal_strlit("/>\n  </item>\n");
    let t = items_xml(rs) + footer();
    if rs.len() == 0 {
        assert(t =~= footer());
    } else {
        let r = rs[0];
        let a = attrs_xml(item_lits(), rule_values(r));
        let rest = items_xml(rs.drop_first()) + footer();
        assert(t =~= item_xml(r) + rest);
        lemma_item_not_footer(r, rest);
        assert(t =~= a + (item_end() + rest));
        lemma_read_attrs_written(item_lits(), rule_values(r), item_end() + rest);
        lemma_rule_values(r);
        assert(t.subrange(a.len() as int, (a.len() + item_end().len()) as int) =~= item_end());
        assert(t.subrange((a.len() + item_end().len()) as int, t.len() as int) =~= rest);
        lemma_items_written(rs.drop_first());
        assert(seq![r] + rs.drop_first() =~= rs);
    }
}

proof fn lemma_items_sound(t: Seq<char>)
    requires
        spec_read_items(t) is Some,
    ensures
        items_xml(spec_read_items(t)->Some_0) + footer() == t,
    decreases t.len(),
{
    if t == footer() {
        assert(items_xml(Seq::<NamedRule>::empty()) + footer() =~= t);
    } else {
        let (vs, n) = spec_read_attrs(t, item_lits())->Some_0;
        let r = rule_of_values(vs)->Some_0;
        lemma_read_attrs_sound(t, item_lits());
        lemma_rule_of_values(vs);
        let m = n + item_end().len();
        let tail = t.subrange(m, t.len() as int);
        lemma_items_sound(tail);
        let rs = spec_read_items(tail)->Some_0;
        let all = seq![r] + rs;
        assert(all[0] == r);
        assert(all.drop_first() =~= rs);
        assert(t =~= t.subrange(0, n) + t.subrange(n, m) + tail);
    }
}

/// A patchbay file reads back as the version, name and rules it was
/// written from.
pub proof fn lemma_qpwgraph_round_trip(version: u32, name: Seq<char>, rules: Seq<NamedRule>)
    ensures
        spec_read_qpwgraph(spec_qpwgraph_xml(version, name, rules)) == Some((version, name, rules)),
{
    let values = seq![spec_decimal_chars(version as nat), name];
    let h = attrs_xml(header_lits(), values);
    let rest = items_start() + items_xml(rules) + footer();
    let t = spec_qpwgraph_xml(version, name, rules);
    assert(t =~= h + rest);
    lemma_read_attrs_written(header_lits(), values, rest);
    lemma_version_word(version);
    assert(t.subrange(h.len() as int, (h.len() + items_start().len()) as int) =~= items_start());
    assert(t.subrange((h.len() + items_start().len()) as int, t.len() as int) =~= items_xml(rules) + footer());
    lemma_items_written(rules);
}

/// Text that reads as a patchbay file is that file as it would be written.
pub proof fn lemma_qpwgraph_read_sound(t: Seq<char>)
    requires
        spec_read_qpwgraph(t) is Some,
    ensures
        ({
            let (version, name, rules) = spec_read_qpwgraph(t)->Some_0;
            spec_qpwgraph_xml(version, name, rules) == t
        }),
{
    let (vs, n) = spec_read_attrs(t, header_lits())->Some_0;
    lemma_read_attrs_sound(t, header_lits());
    let v = version_of_word(vs[0])->Some_0;
    let m = n + items_start().len();
    let tail = t.subrange(m, t.len() as int);
    lemma_items_sound(tail);
    assert(vs =~= seq![spec_decimal_chars(v as nat), vs[1]]);
    assert(t =~= t.subrange(0, n) + t.subrange(n, m) + tail);
}


proof fn lemma_items_push(rs: Seq<NamedRule>, r: NamedRule)
    ensures
        items_xml(rs.push(r)) == items_xml(rs) + item_xml(r),
    decreases rs.len(),
{
    if rs.len() == 0 {
        assert(rs.push(r).drop_first() =~= Seq::<NamedRule>::empty());
        assert(items_xml(rs.push(r).drop_first()) == Seq::<char>::empty());
        assert(items_xml(rs.push(r)) =~= item_xml(r));
    } else {
        lemma_items_push(rs.drop_first(), r);
        assert(rs.push(r).drop_first() =~= rs.drop_first().push(r));
        assert(rs.push(r)[0] == rs[0]);
    }
}

/// Text escaped for an XML attribute value.
///
/// Trusted: calls `quick_xml::escape::escape`, whose source replaces `<`,
/// `>`, `&`, `'`, `"` and carriage return by `&lt;`, `&gt;`, `&amp;`,
/// `&apos;`, `&quot;` and `&#13;`, and copies every other character as it is.
#[verifier::external_body]
fn quick_xml_escape(value: &str) -> (escaped: String)
    ensures
        escaped@ == xml_escape(value@),
{
    quick_xml::escape::escape(value).into_owned()
}

/// Append `value` escaped for an attribute.
fn push_escaped(out: &mut Vec<char>, value: &[char])
    ensures
        final(out)@ == old(out)@ + xml_escape(value@),
{
    let text = string_from_chars(value);
    let escaped = quick_xml_escape(text.as_str());
    append_str(out, escaped.as_str());
}

/// Append an attribute: its literal, its escaped value, the closing quote.
fn push_attr(out: &mut Vec<char>, lit: &str, value: &[char])
    ensures
        final(out)@ == old(out)@ + attr(lit@, value@),
{
    let ghost before = out@;
    append_str(out, lit);
    push_escaped(out, value);
    out.push('"');
    assert(out@ =~= before + attr(lit@, value@));
}

fn node_type_text(t: NodeType) -> (w: &'static str)
    ensures
        w@ == node_type_word(t),
{
    match t {
        NodeType::PipeWire => "pipewire",
        NodeType::AlsaMidi => "alsa",
        NodeType::Effect => "effect",
        NodeType::WindowsAudioEndpoint => "windows-endpoint",
        NodeType::WindowsAudioSession => "windows-session",
        NodeType::WindowsMidi => "windows-midi",
        NodeType::Unknown => "unknown",
    }
}

fn port_type_text(t: PortType) -> (w: &'static str)
    ensures
        w@ == port_type_word(t),
{
    match t {
        PortType::Audio => "pipewire-audio",
        PortType::Video => "pipewire-video",
        PortType::MidiJack => "pipewire-midi",
        PortType::MidiAlsa => "alsa-midi",
        PortType::Unknown => "unknown",
    }
}

fn bool_text(b: bool) -> (w: &'static str)
    ensures
        w@ == bool_word(b),
{
    if b {
        "true"
    } else {
        "false"
    }
}

/// Append one rule as a file holds it.
fn push_item(out: &mut Vec<char>, c: &PatchConnection)
    ensures
        final(out)@ == old(out)@ + item_xml(named_rule(conn_view(*c))),
{
    let ghost before = out@;
    let ghost r = named_rule(conn_view(*c));
    let nt = chars_of(node_type_text(c.node_type));
    let pt = chars_of(port_type_text(c.port_type));
    let pinned = chars_of(bool_text(c.pinned));
    let output_node = chars_of(c.output_node.as_str());
    let output_name = chars_of(c.output_name.as_str());
    let input_node = chars_of(c.input_node.as_str());
    let input_name = chars_of(c.input_name.as_str());
    push_attr(out, "  <item node-type=\"", nt.as_slice());
    push_attr(out, " port-type=\"", pt.as_slice());
    push_attr(out, " pinned=\"", pinned.as_slice());
    push_attr(out, ">\n   <output node=\"", output_node.as_slice());
    push_attr(out, " port=\"", output_name.as_slice());
    push_attr(out, "/>\n   <input node=\"", input_node.as_slice());
    push_attr(out, " port=\"", input_name.as_slice());
    append_str(out, "/>\n  </item>\n");
    proof {
        let lits = item_lits();
        let vals = rule_values(r);
        reveal_with_fuel(attrs_xml, 8);
        assert(lits.drop_first().drop_first().drop_first().drop_first().drop_first().drop_first().drop_first().len() == 0);
        assert(out@ =~= before + attrs_xml(lits, vals) + item_end());
    }
}

/// A patchbay written as a qpwgraph file.
pub fn patchbay_to_xml(patchbay: &Patchbay) -> (text: String)
    ensures
        text@ == spec_qpwgraph_xml(
            patchbay.version,
            patchbay.name@,
            named_rules(conns_view(patchbay.connections@)),
        ),
{
    let mut out: Vec<char> = Vec::new();
    let version = decimal_chars(patchbay.version as u64);
    let name = chars_of(patchbay.name.as_str());
    push_attr(&mut out, "<!DOCTYPE patchbay>\n<patchbay version=\"", version.as_slice());
    push_attr(&mut out, " name=\"", name.as_slice());
    append_str(&mut out, ">\n <items>\n");
    let ghost head = out@;
    proof {
        reveal_with_fuel(attrs_xml, 3);
        assert(head =~= attrs_xml(
            header_lits(),
            seq![spec_decimal_chars(patchbay.version as nat), patchbay.name@],
        ) + items_start());
    }
    let ghost rules = named_rules(conns_view(patchbay.connections@));
    let mut i: usize = 0;
    assert(rules.subrange(0, 0) =~= Seq::<NamedRule>::empty());
    while i < patchbay.connections.len()
        invariant
            i <= patchbay.connections@.len(),
            rules == named_rules(conns_view(patchbay.connections@)),
            rules.len() == patchbay.connections@.len(),
            out@ == head + items_xml(rules.subrange(0, i as int)),
        decreases patchbay.connections@.len() - i,
    {
        push_item(&mut out, &patchbay.connections[i]);
        proof {
            lemma_items_push(rules.subrange(0, i as int), rules[i as int]);
            assert(rules.subrange(0, i as int).push(rules[i as int]) =~= rules.subrange(0, i + 1));
        }
        i = i + 1;
    }
    append_str(&mut out, " </items>\n</patchbay>\n");
    assert(rules.subrange(0, rules.len() as int) =~= rules);
    string_from_chars(out.as_slice())
}


/// Why a text is not a patchbay file.
#[derive(Debug, Clone, Copy, PartialEq, Eq, Structural)]
pub enum PatchbayXmlError {
    /// The text is not in the shape a patchbay file has, or an attribute
    /// value in it is not one the shape admits.
    InvalidAttributes,
}

/// What follows position `i` of `t`.
pub open spec fn after(t: Seq<char>, i: int) -> Seq<char> {
    t.subrange(i, t.len() as int)
}

/// The characters of each vector.
pub open spec fn char_views(vs: Seq<Vec<char>>) -> Seq<Seq<char>> {
    vs.map_values(|v: Vec<char>| v@)
}

proof fn lemma_occurs_after(t: Seq<char>, lit: Seq<char>, i: int, k: int)
    requires
        0 <= i <= t.len(),
        0 <= k,
    ensures
        occurs_at(after(t, i), lit, k) == occurs_at(t, lit, i + k),
{
    if occurs_at(t, lit, i + k) {
        assert(after(t, i).subrange(k, k + lit.len()) =~= t.subrange(i + k, i + k + lit.len()));
    }
    if occurs_at(after(t, i), lit, k) {
        assert(after(t, i).subrange(k, k + lit.len()) =~= t.subrange(i + k, i + k + lit.len()));
    }
}

proof fn lemma_after_after(t: Seq<char>, i: int, n: int)
    requires
        0 <= i,
        0 <= n,
        i + n <= t.len(),
    ensures
        after(after(t, i), n) == after(t, i + n),
{
    assert(after(after(t, i), n) =~= after(t, i + n));
}

fn is_special_exec(c: char) -> (r: bool)
    ensures
        r == is_special(c),
{
    c == '<' || c == '>' || c == '&' || c == '\'' || c == '"' || c == '\r'
}

fn occurs_str(t: &[char], lit: &str, i: usize) -> (r: bool)
    requires
        i <= t@.len(),
    ensures
        r == occurs_at(after(t@, i as int), lit@, 0),
{
    let l = chars_of(lit);
    proof {
        lemma_occurs_after(t@, lit@, i as int, 0);
    }
    occurs_at_exec(t, l.as_slice(), i)
}

/// The entity at position `i`, as `entity_at` reads it.
fn entity_exec(t: &[char], i: usize) -> (r: Option<(char, usize)>)
    requires
        i <= t@.len(),
    ensures
        match r {
            Some((c, n)) => entity_at(after(t@, i as int)) == Some((c, n as int)),
            None => entity_at(after(t@, i as int)) is None,
        },
{
    if occurs_str(t, "&lt;", i) {
        Some(('<', 4))
    } else if occurs_str(t, "&gt;", i) {
        Some(('>', 4))
    } else if occurs_str(t, "&amp;", i) {
        Some(('&', 5))
    } else if occurs_str(t, "&apos;", i) {
        Some(('\'', 6))
    } else if occurs_str(t, "&quot;", i) {
        Some(('"', 6))
    } else if occurs_str(t, "&#13;", i) {
        Some(('\r', 5))
    } else {
        None
    }
}

/// The attribute value that starts at position `start`, as `spec_unescape`
/// reads it.
fn unescape_at(t: &[char], start: usize) -> (r: Option<(Vec<char>, usize)>)
    requires
        start <= t@.len(),
    ensures
        match r {
            Some((v, q)) => spec_unescape(after(t@, start as int)) == Some((v@, q as int)),
            None => spec_unescape(after(t@, start as int)) is None,
        },
{
    let mut out: Vec<char> = Vec::new();
    let mut i: usize = start;
    while i < t.len()
        invariant
            start <= i <= t@.len(),
            spec_unescape(after(t@, start as int)) == match spec_unescape(after(t@, i as int)) {
                Some((s, q)) => Some((out@ + s, q + (i - start))),
                None => None,
            },
        decreases t@.len() - i,
    {
        let ghost a = after(t@, i as int);
        let c = t[i];
        assert(a[0] == c);
        if c == '"' {
            assert(out@ + Seq::<char>::empty() =~= out@);
            return Some((out, i - start));
        }
        if c == '&' {
            match entity_exec(t, i) {
                Some((e, n)) => {
                    proof {
                        reveal_strlit("&lt;");
                        reveal_strlit("&gt;");
                        reveal_strlit("&amp;");
                        reveal_strlit("&apos;");
                        reveal_strlit("&quot;");
                        reveal_strlit("&#13;");
                        assert(0 < n <= a.len());
                        lemma_after_after(t@, i as int, n as int);
                        match spec_unescape(after(t@, i + n)) {
                            Some((s, q)) => {
                                assert(out@.push(e) + s =~= out@ + (seq![e] + s));
                            },
                            None => {},
                        }
                    }
                    out.push(e);
                    i = i + n;
                },
                None => {
                    return None;
                },
            }
        } else if is_special_exec(c) {
            return None;
        } else {
            proof {
                assert(a.drop_first() =~= after(t@, i + 1));
                match spec_unescape(after(t@, i + 1)) {
                    Some((s, q)) => {
                        assert(out@.push(c) + s =~= out@ + (seq![c] + s));
                    },
                    None => {},
                }
            }
            out.push(c);
            i = i + 1;
        }
    }
    assert(after(t@, i as int).len() == 0);
    None
}

/// `lit` at position `start`, then a quoted value, as `spec_read_attr` reads them.
fn read_attr(t: &[char], start: usize, lit: &str) -> (r: Option<(Vec<char>, usize)>)
    requires
        start <= t@.len(),
    ensures
        match r {
            Some((v, n)) => spec_read_attr(after(t@, start as int), lit@) == Some((v@, n as int)),
            None => spec_read_attr(after(t@, start as int), lit@) is None,
        },
{
    if !occurs_str(t, lit, start) {
        return None;
    }
    let l = chars_of(lit);
    let ghost a = after(t@, start as int);
    assert(start + l.len() <= t.len());
    proof {
        lemma_after_after(t@, start as int, l@.len() as int);
    }
    match unescape_at(t, start + l.len()) {
        Some((v, q)) => {
            proof {
                lemma_unescape_sound(after(t@, start + l@.len()));
            }
            Some((v, l.len() + q + 1))
        },
        None => None,
    }
}

spec fn lits_of(header: bool) -> Seq<Seq<char>> {
    if header {
        header_lits()
    } else {
        item_lits()
    }
}

fn lits_count(header: bool) -> (n: usize)
    ensures
        n == lits_of(header).len(),
{
    if header {
        2
    } else {
        7
    }
}

fn lit_text(header: bool, k: usize) -> (w: &'static str)
    requires
        k < lits_of(header).len(),
    ensures
        w@ == lits_of(header)[k as int],
{
    if header {
        if k == 0 {
            "<!DOCTYPE patchbay>\n<patchbay version=\""
        } else {
            " name=\""
        }
    } else {
        if k == 0 {
            "  <item node-type=\""
        } else if k == 1 {
            " port-type=\""
        } else if k == 2 {
            " pinned=\""
        } else if k == 3 {
            ">\n   <output node=\""
        } else if k == 4 {
            " port=\""
        } else if k == 5 {
            "/>\n   <input node=\""
        } else {
            " port=\""
        }
    }
}

/// The header's or a rule's attributes from position `start`, as
/// `spec_read_attrs` reads them.
fn read_attrs(t: &[char], start: usize, header: bool) -> (r: Option<(Vec<Vec<char>>, usize)>)
    requires
        start <= t@.len(),
    ensures
        match r {
            Some((vs, n)) => spec_read_attrs(after(t@, start as int), lits_of(header)) == Some(
                (char_views(vs@), n as int),
            ),
            None => spec_read_attrs(after(t@, start as int), lits_of(header)) is None,
        },
{
    let ghost lits = lits_of(header);
    let count = lits_count(header);
    let mut acc: Vec<Vec<char>> = Vec::new();
    let mut pos: usize = start;
    let mut k: usize = 0;
    assert(lits.skip(0) =~= lits);
    assert(char_views(acc@) + Seq::<Seq<char>>::empty() =~= Seq::<Seq<char>>::empty());
    while k < count
        invariant
            count == lits.len(),
            lits == lits_of(header),
            k <= count,
            start <= pos <= t@.len(),
            spec_read_attrs(after(t@, start as int), lits) == match spec_read_attrs(
                after(t@, pos as int),
                lits.skip(k as int),
            ) {
                Some((vs, m)) => Some((char_views(acc@) + vs, (pos - start) + m)),
                None => None,
            },
        decreases count - k,
    {
        let lit = lit_text(header, k);
        let ghost sk = lits.skip(k as int);
        assert(sk[0] == lit@);
        assert(sk.drop_first() =~= lits.skip(k + 1));
        match read_attr(t, pos, lit) {
            Some((v, n)) => {
                proof {
                    lemma_read_attr_sound(after(t@, pos as int), lit@);
                    assert(n <= after(t@, pos as int).len());
                    assert(t@.len() == t.len());
                    lemma_after_after(t@, pos as int, n as int);
                    match spec_read_attrs(after(t@, pos + n), lits.skip(k + 1)) {
                        Some((vs, m)) => {
                            assert(char_views(acc@.push(v)) =~= char_views(acc@).push(v@));
                            assert(char_views(acc@).push(v@) + vs =~= char_views(acc@) + (seq![v@] + vs));
                        },
                        None => {},
                    }
                }
                acc.push(v);
                pos = pos + n;
                k = k + 1;
            },
            None => {
                return None;
            },
        }
    }
    assert(lits.skip(count as int).len() == 0);
    assert(char_views(acc@) + Seq::<Seq<char>>::empty() =~= char_views(acc@));
    Some((acc, pos - start))
}


fn node_type_from_chars(w: &[char]) -> (r: Option<NodeType>)
    ensures
        r == node_type_of_word(w@),
{
    if chars_eq_str(w, "pipewire") {
        Some(NodeType::PipeWire)
    } else if chars_eq_str(w, "alsa") {
        Some(NodeType::AlsaMidi)
    } else if chars_eq_str(w, "effect") {
        Some(NodeType::Effect)
    } else if chars_eq_str(w, "windows-endpoint") {
        Some(NodeType::WindowsAudioEndpoint)
    } else if chars_eq_str(w, "windows-session") {
        Some(NodeType::WindowsAudioSession)
    } else if chars_eq_str(w, "windows-midi") {
        Some(NodeType::WindowsMidi)
    } else if chars_eq_str(w, "unknown") {
        Some(NodeType::Unknown)
    } else {
        None
    }
}

fn port_type_from_chars(w: &[char]) -> (r: Option<PortType>)
    ensures
        r == port_type_of_word(w@),
{
    if chars_eq_str(w, "pipewire-audio") {
        Some(PortType::Audio)
    } else if chars_eq_str(w, "pipewire-video") {
        Some(PortType::Video)
    } else if chars_eq_str(w, "pipewire-midi") {
        Some(PortType::MidiJack)
    } else if chars_eq_str(w, "alsa-midi") {
        Some(PortType::MidiAlsa)
    } else if chars_eq_str(w, "unknown") {
        Some(PortType::Unknown)
    } else {
        None
    }
}

fn bool_from_chars(w: &[char]) -> (r: Option<bool>)
    ensures
        r == bool_of_word(w@),
{
    if chars_eq_str(w, "true") {
        Some(true)
    } else if chars_eq_str(w, "false") {
        Some(false)
    } else {
        None
    }
}

fn version_from_chars(w: &[char]) -> (r: Option<u32>)
    ensures
        r == version_of_word(w@),
{
    let text = string_from_chars(w);
    match parse_unsigned(text.as_str(), 4294967295) {
        Some(n) => {
            let digits = decimal_chars(n);
            if chars_eq(digits.as_slice(), w) {
                Some(n as u32)
            } else {
                None
            }
        },
        None => None,
    }
}

/// The rule that a rule's seven attribute values spell, with no port ids.
fn rule_from_values(vs: &Vec<Vec<char>>) -> (r: Option<PatchConnection>)
    ensures
        match r {
            Some(c) => rule_of_values(char_views(vs@)) == Some(named_rule(conn_view(c)))
                && c.output_port == PortId(0) && c.input_port == PortId(0),
            None => rule_of_values(char_views(vs@)) is None,
        },
{
    if vs.len() != 7 {
        return None;
    }
    let ghost views = char_views(vs@);
    assert(views[0] == vs@[0]@ && views[1] == vs@[1]@ && views[2] == vs@[2]@);
    assert(views[3] == vs@[3]@ && views[4] == vs@[4]@ && views[5] == vs@[5]@ && views[6] == vs@[6]@);
    let nt = node_type_from_chars(vs[0].as_slice());
    let pt = port_type_from_chars(vs[1].as_slice());
    let pinned = bool_from_chars(vs[2].as_slice());
    match (nt, pt, pinned) {
        (Some(node_type), Some(port_type), Some(pinned)) => Some(PatchConnection {
            output_port: PortId(0),
            input_port: PortId(0),
            pinned,
            node_type,
            port_type,
            output_node: string_from_chars(vs[3].as_slice()),
            output_name: string_from_chars(vs[4].as_slice()),
            input_node: string_from_chars(vs[5].as_slice()),
            input_name: string_from_chars(vs[6].as_slice()),
        }),
        _ => None,
    }
}

/// The rules from position `start` to the end, as `spec_read_items` reads them.
fn read_items(t: &[char], start: usize) -> (r: Option<Vec<PatchConnection>>)
    requires
        start <= t@.len(),
    ensures
        match r {
            Some(cs) => spec_read_items(after(t@, start as int)) == Some(named_rules(conns_view(cs@)))
                && forall|i: int| 0 <= i < cs@.len() ==> cs@[i].output_port == PortId(0)
                && cs@[i].input_port == PortId(0),
            None => spec_read_items(after(t@, start as int)) is None,
        },
{
    let footer_chars = chars_of(" </items>\n</patchbay>\n");
    let end_chars = chars_of("/>\n  </item>\n");
    proof {
        reveal_strlit("/>\n  </item>\n");
    }
    assert(end_chars@.len() == 13);
    let mut acc: Vec<PatchConnection> = Vec::new();
    let mut pos: usize = start;
    assert(named_rules(conns_view(acc@)) =~= Seq::<NamedRule>::empty());
    loop
        invariant
            start <= pos <= t@.len(),
            footer_chars@ == footer(),
            end_chars@ == item_end(),
            end_chars@.len() == 13,
            spec_read_items(after(t@, start as int)) == match spec_read_items(after(t@, pos as int)) {
                Some(rs) => Some(named_rules(conns_view(acc@)) + rs),
                None => None,
            },
            forall|i: int| 0 <= i < acc@.len() ==> acc@[i].output_port == PortId(0)
                && acc@[i].input_port == PortId(0),
        decreases t@.len() - pos,
    {
        let ghost a = after(t@, pos as int);
        if t.len() - pos == footer_chars.len() && occurs_at_exec(t, footer_chars.as_slice(), pos) {
            assert(a =~= footer());
            assert(named_rules(conns_view(acc@)) + Seq::<NamedRule>::empty() =~= named_rules(conns_view(acc@)));
            return Some(acc);
        }
        assert(a != footer()) by {
            if a == footer() {
                assert(t@.subrange(pos as int, pos + footer_chars@.len()) =~= a);
            }
        }
        match read_attrs(t, pos, false) {
            None => {
                return None;
            },
            Some((vs, n)) => {
                proof {
                    lemma_read_attrs_sound(a, item_lits());
                }
                match rule_from_values(&vs) {
                    None => {
                        return None;
                    },
                    Some(c) => {
                        if !occurs_at_exec(t, end_chars.as_slice(), pos + n) {
                            proof {
                                lemma_occurs_after(t@, item_end(), pos as int, n as int);
                            }
                            return None;
                        }
                        proof {
                            lemma_occurs_after(t@, item_end(), pos as int, n as int);
                            lemma_after_after(t@, pos as int, n + 13);
                            match spec_read_items(after(t@, pos + n + 13)) {
                                Some(rs) => {
                                    let before = named_rules(conns_view(acc@));
                                    assert(named_rules(conns_view(acc@.push(c))) =~= before.push(
                                        named_rule(conn_view(c)),
                                    ));
                                    assert(before.push(named_rule(conn_view(c))) + rs =~= before + (seq![
                                        named_rule(conn_view(c)),
                                    ] + rs));
                                },
                                None => {},
                            }
                        }
                        acc.push(c);
                        pos = pos + n + 13;
                    },
                }
            },
        }
    }
}

/// A patchbay read from a qpwgraph file. Rules come back with their names
/// and no port ids; text in any other shape is refused.
pub fn patchbay_from_xml(text: &str) -> (result: Result<Patchbay, PatchbayXmlError>)
    ensures
        match result {
            Ok(p) => spec_read_qpwgraph(text@) == Some(
                (p.version, p.name@, named_rules(conns_view(p.connections@))),
            ) && forall|i: int|
                0 <= i < p.connections@.len() ==> p.connections@[i].output_port == PortId(0)
                    && p.connections@[i].input_port == PortId(0),
            Err(e) => spec_read_qpwgraph(text@) is None && e == PatchbayXmlError::InvalidAttributes,
        },
{
    let t = chars_of(text);
    assert(after(t@, 0) =~= text@);
    match read_attrs(t.as_slice(), 0, true) {
        None => Err(PatchbayXmlError::InvalidAttributes),
        Some((vs, n)) => {
            proof {
                lemma_read_attrs_sound(text@, header_lits());
            }
            assert(char_views(vs@)[0] == vs@[0]@ && char_views(vs@)[1] == vs@[1]@);
            match version_from_chars(vs[0].as_slice()) {
                None => Err(PatchbayXmlError::InvalidAttributes),
                Some(version) => {
                    let start = chars_of(">\n <items>\n");
                    proof {
                        lemma_occurs_after(t@, items_start(), 0, n as int);
                    }
                    if !occurs_at_exec(t.as_slice(), start.as_slice(), n) {
                        return Err(PatchbayXmlError::InvalidAttributes);
                    }
                    match read_items(t.as_slice(), n + start.len()) {
                        None => Err(PatchbayXmlError::InvalidAttributes),
                        Some(connections) => {
                            let name = string_from_chars(vs[1].as_slice());
                            Ok(Patchbay { version, name, connections })
                        },
                    }
                },
            }
        },
    }
}

} // verus!
