//! The record of what was installed on each wire, as it is written and read back.

use vstd::prelude::*;

use crate::error::{refuses, Error};
use crate::model::{pairs, views};
use crate::text::lines::{
    begins, behind, ended, lemma_behind, lemma_lines_push, lemma_split_once_at, lemma_words_push,
    lines, lines_of, one_line, one_word, strip_prefix, words, words_of,
};
use crate::text::{
    cat2, cat3, cat4, chars_of, dec, dec_u64, is_space, lemma_dec, lemma_parse_dec, parse_u64,
    parse_uint, skip_space, split_at_first, split_once, str_eq, texts, trim, trimmed,
};
use crate::textmap::TextMap;

pub mod format;

verus! {

/// What was done to one wire.
#[derive(Debug, PartialEq, Eq)]
pub enum AppliedWire {
    /// The classes that were installed, each with its rate.
    Shaped(Vec<(String, String)>),
    /// Left alone, for want of carrier.
    NoCarrier,
    /// Nothing was installed, for this reason.
    Failed(String),
}

pub enum AppliedV {
    Shaped(Seq<(Seq<char>, Seq<char>)>),
    NoCarrier,
    Failed(Seq<char>),
}

impl View for AppliedWire {
    type V = AppliedV;

    open spec fn view(&self) -> AppliedV {
        match self {
            AppliedWire::Shaped(c) => AppliedV::Shaped(pairs(c@)),
            AppliedWire::NoCarrier => AppliedV::NoCarrier,
            AppliedWire::Failed(m) => AppliedV::Failed(m@),
        }
    }
}

/// The record of one round.
#[derive(Debug, PartialEq, Eq)]
pub struct ShapeApplied {
    /// When it was written, for a human reader.
    pub tick: u64,
    pub wires: TextMap<AppliedWire>,
}

// ---- writing ----

/// The first `n` classes, a word each.
pub open spec fn class_words(c: Seq<(Seq<char>, Seq<char>)>, n: int) -> Seq<char>
    decreases n,
{
    if n <= 0 {
        seq![]
    } else {
        class_words(c, n - 1) + (" "@ + c[n - 1].0 + "="@ + c[n - 1].1)
    }
}

/// A message without line feeds, so that it stays on its line.
pub open spec fn spaced(m: Seq<char>) -> Seq<char> {
    Seq::new(
        m.len(),
        |i: int|
            if m[i] == '\n' {
                ' '
            } else {
                m[i]
            },
    )
}

/// What is written of a wire behind its name.
pub open spec fn wire_rest(w: AppliedV) -> Seq<char> {
    match w {
        AppliedV::Shaped(c) => "shaped"@ + class_words(c, c.len() as int),
        AppliedV::NoCarrier => "no-carrier"@,
        AppliedV::Failed(m) => "failed "@ + spaced(m),
    }
}

pub open spec fn wire_body(dev: Seq<char>, w: AppliedV) -> Seq<char> {
    "dev "@ + dev + " "@ + wire_rest(w)
}

/// The record, with the first `n` wires.
pub open spec fn record_text(
    tick: nat,
    devs: Seq<Seq<char>>,
    wires: Seq<AppliedV>,
    n: int,
) -> Seq<char>
    decreases n,
{
    if n <= 0 {
        "cfab-shape-applied 1\n"@ + ("tick "@ + dec(tick) + "\n"@)
    } else {
        record_text(tick, devs, wires, n - 1) + (wire_body(devs[n - 1], wires[n - 1]) + "\n"@)
    }
}

// ---- reading ----

/// What one line of a record says.
pub enum LineV {
    Blank,
    Wire(Seq<char>, AppliedV),
    Bad(Seq<char>),
}

pub open spec fn bad_line(line: Seq<char>) -> LineV {
    LineV::Bad("shape record: bad line '"@ + line + "'"@)
}

/// The first word from `i` on that is no class.
pub open spec fn bad_class(w: Seq<Seq<char>>, i: int) -> Option<Seq<char>>
    decreases w.len() - i,
{
    if i >= w.len() {
        None
    } else if split_once(w[i], '=') is None {
        Some(w[i])
    } else {
        bad_class(w, i + 1)
    }
}

pub open spec fn classes(w: Seq<Seq<char>>) -> Seq<(Seq<char>, Seq<char>)> {
    Seq::new(w.len(), |i: int| split_once(w[i], '=')->0)
}

/// What stands behind a wire's name.
pub open spec fn rest_of(line: Seq<char>, dev: Seq<char>, r: Seq<char>) -> LineV {
    if r == "no-carrier"@ {
        LineV::Wire(dev, AppliedV::NoCarrier)
    } else if behind(r, "failed "@) is Some {
        LineV::Wire(dev, AppliedV::Failed(behind(r, "failed "@)->0))
    } else if behind(r, "shaped"@) is Some {
        let w = words(behind(r, "shaped"@)->0);
        match bad_class(w, 0) {
            Some(t) => LineV::Bad("shape record: bad class '"@ + t + "'"@),
            None => LineV::Wire(dev, AppliedV::Shaped(classes(w))),
        }
    } else {
        bad_line(line)
    }
}

pub open spec fn line_of(line: Seq<char>) -> LineV {
    if trim(line).len() == 0 {
        LineV::Blank
    } else {
        match behind(line, "dev "@) {
            None => bad_line(line),
            Some(rest) => match split_once(rest, ' ') {
                None => bad_line(line),
                Some(p) => rest_of(line, p.0, p.1),
            },
        }
    }
}

/// Why the lines from `i` on are no record, where they are none.
pub open spec fn lines_refusal(l: Seq<Seq<char>>, i: int) -> Option<Seq<char>>
    decreases l.len() - i,
{
    if i >= l.len() {
        None
    } else {
        match line_of(l[i]) {
            LineV::Bad(m) => Some(m),
            _ => lines_refusal(l, i + 1),
        }
    }
}

/// The wires that the lines from the third to the `n`th record; the last line of a wire counts.
pub open spec fn wires_in(l: Seq<Seq<char>>, n: int) -> Map<Seq<char>, AppliedV>
    decreases n,
{
    if n <= 2 {
        Map::empty()
    } else {
        match line_of(l[n - 1]) {
            LineV::Wire(dev, w) => wires_in(l, n - 1).insert(dev, w),
            _ => wires_in(l, n - 1),
        }
    }
}

/// The number on the second line.
pub open spec fn tick_of(l: Seq<Seq<char>>) -> Option<nat> {
    if l.len() < 2 {
        None
    } else {
        match behind(l[1], "tick "@) {
            Some(v) => parse_uint(trim(v), u64::MAX as nat),
            None => None,
        }
    }
}

/// Why a text is no record, where it is none: anything unexpected refuses it.
pub open spec fn record_refusal(text: Seq<char>) -> Option<Seq<char>> {
    let l = lines(text);
    if l.len() == 0 || l[0] != "cfab-shape-applied 1"@ {
        Some("shape record: bad header"@)
    } else if tick_of(l) is None {
        Some("shape record: bad tick line"@)
    } else {
        lines_refusal(l, 2)
    }
}

/// The wires that a record names.
pub open spec fn record_wires(text: Seq<char>) -> Map<Seq<char>, AppliedV> {
    wires_in(lines(text), lines(text).len() as int)
}

/// The wires of a map, by their names.
pub open spec fn wire_map(m: TextMap<AppliedWire>) -> Map<Seq<char>, AppliedV> {
    Map::new(|k: Seq<char>| m.has(k), |k: Seq<char>| m.value_of(k)@)
}

fn spaces_for_lines(m: &str) -> (r: String)
    ensures
        r@ == spaced(m@),
{
    let v = chars_of(m);
    let mut out = String::new();
    let mut i: usize = 0;
    assert(out@ =~= spaced(m@).take(0));
    while i < v.len()
        invariant
            i <= v@.len(),
            v@ == m@,
            out@ == spaced(m@).take(i as int),
        decreases v@.len() - i,
    {
        assert(spaced(m@).take(i + 1) =~= spaced(m@).take(i as int).push(spaced(m@)[i as int]));
        if v[i] == '\n' {
            out.push(' ');
        } else {
            out.push(v[i]);
        }
        i = i + 1;
    }
    assert(spaced(m@).take(m@.len() as int) =~= spaced(m@));
    out
}

fn body_of(dev: &str, w: &AppliedWire) -> (r: String)
    ensures
        r@ == wire_body(dev@, w@),
{
    let rest = match w {
        AppliedWire::Shaped(c) => {
            let mut words = String::new();
            let mut i: usize = 0;
            while i < c.len()
                invariant
                    i <= c@.len(),
                    words@ == class_words(pairs(c@), i as int),
                decreases c@.len() - i,
            {
                let word = cat4(" ", c[i].0.as_str(), "=", c[i].1.as_str());
                assert(pairs(c@)[i as int] == (c@[i as int].0@, c@[i as int].1@));
                words.append(word.as_str());
                i = i + 1;
            }
            cat2("shaped", words.as_str())
        },
        AppliedWire::NoCarrier => String::from_str("no-carrier"),
        AppliedWire::Failed(m) => cat2("failed ", spaces_for_lines(m.as_str()).as_str()),
    };
    cat4("dev ", dev, " ", rest.as_str())
}

/// What one line says, as it is read.
enum Line {
    Blank,
    Wire(String, AppliedWire),
    Bad(String),
}

spec fn line_view(l: Line) -> LineV {
    match l {
        Line::Blank => LineV::Blank,
        Line::Wire(d, w) => LineV::Wire(d@, w@),
        Line::Bad(m) => LineV::Bad(m@),
    }
}

fn read_classes(w: &Vec<String>) -> (r: Result<Vec<(String, String)>, String>)
    ensures
        match r {
            Ok(c) => bad_class(texts(w@), 0) is None && pairs(c@) == classes(texts(w@)),
            Err(t) => bad_class(texts(w@), 0) == Some(t@),
        },
{
    let ghost t = texts(w@);
    let mut out: Vec<(String, String)> = Vec::new();
    let mut i: usize = 0;
    while i < w.len()
        invariant
            i <= w@.len(),
            t == texts(w@),
            bad_class(t, 0) == bad_class(t, i as int),
            out@.len() == i,
            forall|j: int|
                0 <= j < i ==> ((#[trigger] out@[j]).0@, out@[j].1@) == split_once(t[j], '=')->0,
        decreases w@.len() - i,
    {
        assert(t[i as int] == w@[i as int]@);
        match split_at_first(w[i].as_str(), '=') {
            Some(p) => {
                out.push(p);
            },
            None => {
                return Err(w[i].clone());
            },
        }
        i = i + 1;
    }
    assert(pairs(out@) =~= classes(t));
    Ok(out)
}

fn bad(line: &str) -> (r: Line)
    ensures
        line_view(r) == bad_line(line@),
{
    Line::Bad(cat3("shape record: bad line '", line, "'"))
}

fn read_line(line: &str) -> (r: Line)
    ensures
        line_view(r) == line_of(line@),
{
    if trimmed(line).as_str().is_empty() {
        return Line::Blank;
    }
    let rest = match strip_prefix(line, "dev ") {
        Some(t) => t,
        None => {
            return bad(line);
        },
    };
    let (dev, r) = match split_at_first(rest.as_str(), ' ') {
        Some(p) => p,
        None => {
            return bad(line);
        },
    };
    if str_eq(r.as_str(), "no-carrier") {
        return Line::Wire(dev, AppliedWire::NoCarrier);
    }
    if let Some(m) = strip_prefix(r.as_str(), "failed ") {
        return Line::Wire(dev, AppliedWire::Failed(m));
    }
    match strip_prefix(r.as_str(), "shaped") {
        Some(spec) => {
            let w = words_of(spec.as_str());
            match read_classes(&w) {
                Ok(c) => Line::Wire(dev, AppliedWire::Shaped(c)),
                Err(t) => Line::Bad(cat3("shape record: bad class '", t.as_str(), "'")),
            }
        },
        None => bad(line),
    }
}

impl ShapeApplied {
    pub open spec fn wf(self) -> bool {
        self.wires.wf()
    }

    /// The record as text.
    pub fn render(&self) -> (r: String)
        requires
            self.wf(),
        ensures
            r@ == record_text(
                self.tick as nat,
                self.wires.keys(),
                views(self.wires.values()),
                self.wires.keys().len() as int,
            ),
    {
        let ghost k = self.wires.keys();
        let ghost v = views(self.wires.values());
        let mut out = cat2(
            "cfab-shape-applied 1\n",
            cat3("tick ", dec_u64(self.tick).as_str(), "\n").as_str(),
        );
        let n = self.wires.len();
        let mut i: usize = 0;
        while i < n
            invariant
                i <= n,
                n == self.wires.keys().len(),
                self.wires.wf(),
                k == self.wires.keys(),
                v == views(self.wires.values()),
                out@ == record_text(self.tick as nat, k, v, i as int),
            decreases n - i,
        {
            let dev = self.wires.key_at(i);
            let w = self.wires.value_at(i);
            assert(v[i as int] == w@);
            let line = cat2(body_of(dev.as_str(), w).as_str(), "\n");
            out.append(line.as_str());
            i = i + 1;
        }
        out
    }

    /// The record that a text is, if it is one.
    pub fn parse(text: &str) -> (r: Result<ShapeApplied, Error>)
        ensures
            refuses(r, record_refusal(text@)),
            r matches Ok(rec) ==> {
                &&& rec.wf()
                &&& tick_of(lines(text@)) == Some(rec.tick as nat)
                &&& wire_map(rec.wires) == record_wires(text@)
            },
    {
        let l = lines_of(text);
        let ghost lv = lines(text@);
        assert(texts(l@).len() == l@.len());
        if l.len() == 0 {
            return Err(Error::config("shape record: bad header"));
        }
        assert(lv[0] == l@[0]@);
        if !str_eq(l[0].as_str(), "cfab-shape-applied 1") {
            return Err(Error::config("shape record: bad header"));
        }
        if l.len() < 2 {
            return Err(Error::config("shape record: bad tick line"));
        }
        assert(lv[1] == l@[1]@);
        let tick: u64 = match strip_prefix(l[1].as_str(), "tick ") {
            Some(v) => match parse_u64(trimmed(v.as_str()).as_str(), u64::MAX) {
                Some(n) => n,
                None => {
                    return Err(Error::config("shape record: bad tick line"));
                },
            },
            None => {
                return Err(Error::config("shape record: bad tick line"));
            },
        };
        let mut wires: TextMap<AppliedWire> = TextMap::new();
        assert(wire_map(wires) =~= Map::empty()) by {
            assert forall|x: Seq<char>| !(#[trigger] wires.has(x)) by {}
        }
        let mut i: usize = 2;
        while i < l.len()
            invariant
                2 <= i <= l@.len(),
                lv == lines(text@),
                texts(l@) == lv,
                lv.len() == l@.len(),
                lv[0] == "cfab-shape-applied 1"@,
                tick_of(lv) == Some(tick as nat),
                lines_refusal(lv, 2) == lines_refusal(lv, i as int),
                wires.wf(),
                wire_map(wires) == wires_in(lv, i as int),
            decreases l@.len() - i,
        {
            assert(lv[i as int] == l@[i as int]@);
            match read_line(l[i].as_str()) {
                Line::Blank => {},
                Line::Wire(dev, w) => {
                    let ghost before = wires;
                    wires.insert(dev, w);
                    proof {
                        let m = wire_map(before).insert(dev@, w@);
                        assert forall|x: Seq<char>| #[trigger]
                            wire_map(wires).contains_key(x) == m.contains_key(x) by {
                            assert(wires.has(x) == (x == dev@ || before.has(x)));
                        }
                        assert forall|x: Seq<char>| #[trigger]
                            wire_map(wires).contains_key(x) implies wire_map(wires)[x] == m[x] by {
                            if x != dev@ {
                                assert(before.has(x));
                                assert(wires.value_of(x) == before.value_of(x));
                            }
                        }
                        assert(wire_map(wires) =~= m);
                    }
                },
                Line::Bad(m) => {
                    return Err(Error::Config(m));
                },
            }
            i = i + 1;
        }
        Ok(ShapeApplied { tick, wires })
    }
}

// ---- what was written reads back ----

/// A wire's name that reads back.
pub open spec fn plain_dev(dev: Seq<char>) -> bool {
    !dev.contains(' ') && !dev.contains('\n')
}

/// A class that reads back: neither part holds white space, and the first no equals sign.
pub open spec fn plain_class(c: (Seq<char>, Seq<char>)) -> bool {
    &&& !c.0.contains('=')
    &&& forall|i: int| 0 <= i < c.0.len() ==> !is_space(#[trigger] c.0[i])
    &&& forall|i: int| 0 <= i < c.1.len() ==> !is_space(#[trigger] c.1[i])
}

/// What was done to a wire, such that it reads back: a message does not end in the carriage
/// return that a line is read without.
pub open spec fn plain_wire(w: AppliedV) -> bool {
    match w {
        AppliedV::Shaped(c) => forall|i: int| 0 <= i < c.len() ==> plain_class(#[trigger] c[i]),
        AppliedV::NoCarrier => true,
        AppliedV::Failed(m) => m.len() > 0 ==> m.last() != '\r',
    }
}

/// What is read back of a wire: a message on one line.
pub open spec fn as_read(w: AppliedV) -> AppliedV {
    match w {
        AppliedV::Failed(m) => AppliedV::Failed(spaced(m)),
        _ => w,
    }
}

pub open spec fn all_as_read(w: Seq<AppliedV>) -> Seq<AppliedV> {
    Seq::new(w.len(), |i: int| as_read(w[i]))
}

/// A message without a line feed is read back as it is.
proof fn lemma_spaced_plain(m: Seq<char>)
    requires
        !m.contains('\n'),
    ensures
        spaced(m) == m,
{
    assert forall|i: int| 0 <= i < m.len() implies spaced(m)[i] == m[i] by {
        if m[i] == '\n' {
            assert(m.contains('\n'));
        }
    }
    assert(spaced(m) =~= m);
}

proof fn lemma_chars()
    ensures
        " "@ == seq![' '],
        "="@ == seq!['='],
        "\n"@ == seq!['\n'],
{
    reveal_strlit(" ");
    reveal_strlit("=");
    reveal_strlit("\n");
    assert(" "@ =~= seq![' ']);
    assert("="@ =~= seq!['=']);
    assert("\n"@ =~= seq!['\n']);
}

proof fn lemma_class_word(c: (Seq<char>, Seq<char>))
    requires
        plain_class(c),
    ensures
        one_word(c.0 + seq!['='] + c.1),
        split_once(c.0 + seq!['='] + c.1, '=') == Some(c),
{
    let w = c.0 + seq!['='] + c.1;
    assert forall|i: int| 0 <= i < w.len() implies !is_space(#[trigger] w[i]) by {
        if i < c.0.len() {
            assert(w[i] == c.0[i]);
        } else if i > c.0.len() {
            assert(w[i] == c.1[i - c.0.len() - 1]);
        }
    }
    lemma_split_once_at(c.0, '=', c.1);
}

proof fn lemma_class_words(c: Seq<(Seq<char>, Seq<char>)>, n: int)
    requires
        0 <= n <= c.len(),
        forall|i: int| 0 <= i < c.len() ==> plain_class(#[trigger] c[i]),
    ensures
        words(class_words(c, n)).len() == n,
        forall|i: int|
            0 <= i < n ==> #[trigger] words(class_words(c, n))[i] == c[i].0 + seq!['='] + c[i].1,
        !class_words(c, n).contains('\n'),
        class_words(c, n).len() > 0 ==> class_words(c, n).last() != '\r',
    decreases n,
{
    lemma_chars();
    if n > 0 {
        lemma_class_words(c, n - 1);
        let p = class_words(c, n - 1);
        let k = c[n - 1];
        let w = k.0 + seq!['='] + k.1;
        lemma_class_word(k);
        assert(" "@ + k.0 + "="@ + k.1 =~= seq![' '] + w);
        lemma_words_push(p, w);
        let t = p + (seq![' '] + w);
        assert(class_words(c, n) == t);
        assert forall|i: int| 0 <= i < t.len() implies t[i] != '\n' by {
            if i < p.len() {
                assert(p[i] != '\n') by {
                    if p[i] == '\n' {
                        assert(p.contains('\n'));
                    }
                }
            } else if i > p.len() {
                assert(t[i] == w[i - p.len() - 1]);
                assert(!is_space(w[i - p.len() - 1]));
            }
        }
        assert(t.last() == w.last());
        assert(!is_space(w[w.len() - 1]));
    } else {
        assert(skip_space(class_words(c, n), 0) == 0);
    }
}

proof fn lemma_no_bad_class(w: Seq<Seq<char>>, i: int)
    requires
        0 <= i <= w.len(),
        forall|j: int| 0 <= j < w.len() ==> split_once(#[trigger] w[j], '=') is Some,
    ensures
        bad_class(w, i) is None,
    decreases w.len() - i,
{
    if i < w.len() {
        lemma_no_bad_class(w, i + 1);
    }
}

/// A text whose first character is no white space is not blank.
proof fn lemma_not_blank(s: Seq<char>)
    requires
        s.len() > 0,
        !is_space(s[0]),
    ensures
        trim(s).len() > 0,
{
    assert(skip_space(s, 0) == 0);
    lemma_back(s, s.len() as int);
}

proof fn lemma_back(s: Seq<char>, j: int)
    requires
        0 < j <= s.len(),
        !is_space(s[0]),
    ensures
        0 < crate::text::back_space(s, 0, j) <= s.len(),
    decreases j,
{
    if is_space(s[j - 1]) {
        if j > 1 {
            lemma_back(s, j - 1);
        }
    }
}

proof fn lemma_rest_reads_back(line: Seq<char>, dev: Seq<char>, w: AppliedV)
    requires
        plain_wire(w),
    ensures
        rest_of(line, dev, wire_rest(w)) == LineV::Wire(dev, as_read(w)),
        one_line(wire_rest(w)),
        wire_rest(w).len() > 0,
{
    reveal_strlit("no-carrier");
    reveal_strlit("failed ");
    reveal_strlit("shaped");
    let r = wire_rest(w);
    match w {
        AppliedV::Shaped(c) => {
            let n = c.len() as int;
            lemma_class_words(c, n);
            let t = class_words(c, n);
            lemma_behind("shaped"@, t);
            assert(r[0] == 's');
            assert(r != "no-carrier"@) by {
                assert("no-carrier"@[0] == 'n');
            }
            assert(!begins(r, "failed "@)) by {
                if begins(r, "failed "@) {
                    assert(r.take(7)[0] == r[0]);
                    assert("failed "@[0] == 'f');
                }
            }
            let ws = words(t);
            assert forall|j: int| 0 <= j < ws.len() implies split_once(#[trigger] ws[j], '=')
                is Some && split_once(ws[j], '=')->0 == c[j] by {
                lemma_class_word(c[j]);
            }
            lemma_no_bad_class(ws, 0);
            assert(classes(ws) =~= c);
            assert forall|i: int| 0 <= i < r.len() implies r[i] != '\n' by {
                if i >= 6 {
                    assert(r[i] == t[i - 6]);
                    if t[i - 6] == '\n' {
                        assert(t.contains('\n'));
                    }
                }
            }
            if t.len() > 0 {
                assert(r.last() == t.last());
            } else {
                assert(r.last() == 'd');
            }
        },
        AppliedV::NoCarrier => {
            assert(r.last() == 'r');
        },
        AppliedV::Failed(said) => {
            let m = spaced(said);
            lemma_behind("failed "@, m);
            assert(r[0] == 'f');
            assert(r != "no-carrier"@) by {
                assert("no-carrier"@[0] == 'n');
            }
            assert forall|i: int| 0 <= i < r.len() implies r[i] != '\n' by {
                if i >= 7 {
                    assert(r[i] == m[i - 7]);
                }
            }
            if m.len() > 0 {
                assert(r.last() == m.last());
            } else {
                assert(r.last() == ' ');
            }
        },
    }
}

proof fn lemma_body_reads_back(dev: Seq<char>, w: AppliedV)
    requires
        plain_dev(dev),
        plain_wire(w),
    ensures
        line_of(wire_body(dev, w)) == LineV::Wire(dev, as_read(w)),
        one_line(wire_body(dev, w)),
{
    lemma_chars();
    reveal_strlit("dev ");
    let b = wire_body(dev, w);
    let r = wire_rest(w);
    lemma_rest_reads_back(b, dev, w);
    assert(b =~= "dev "@ + (dev + seq![' '] + r));
    assert(b[0] == 'd');
    lemma_not_blank(b);
    lemma_behind("dev "@, dev + seq![' '] + r);
    lemma_split_once_at(dev, ' ', r);
    assert forall|i: int| 0 <= i < b.len() implies b[i] != '\n' by {
        if 4 <= i < 4 + dev.len() {
            assert(b[i] == dev[i - 4]);
            if dev[i - 4] == '\n' {
                assert(dev.contains('\n'));
            }
        } else if i >= 5 + dev.len() {
            assert(b[i] == r[i - 5 - dev.len()]);
            if r[i - 5 - dev.len()] == '\n' {
                assert(r.contains('\n'));
            }
        }
    }
    assert(b.last() == r.last());
}

/// The wires of a record as a map.
pub open spec fn wires_map(devs: Seq<Seq<char>>, wires: Seq<AppliedV>, n: int) -> Map<
    Seq<char>,
    AppliedV,
>
    decreases n,
{
    if n <= 0 {
        Map::empty()
    } else {
        wires_map(devs, wires, n - 1).insert(devs[n - 1], wires[n - 1])
    }
}

proof fn lemma_lines_refusal_push(l: Seq<Seq<char>>, x: Seq<char>, i: int)
    requires
        0 <= i <= l.len(),
        !(line_of(x) is Bad),
        lines_refusal(l, i) is None,
    ensures
        lines_refusal(l.push(x), i) is None,
    decreases l.len() - i,
{
    let m = l.push(x);
    if i < l.len() {
        assert(m[i] == l[i]);
        lemma_lines_refusal_push(l, x, i + 1);
    } else {
        assert(m[i] == x);
        assert(lines_refusal(m, i + 1) is None);
    }
}

proof fn lemma_wires_in_push(l: Seq<Seq<char>>, x: Seq<char>, n: int)
    requires
        0 <= n <= l.len(),
    ensures
        wires_in(l.push(x), n) == wires_in(l, n),
    decreases n,
{
    if n > 2 {
        lemma_wires_in_push(l, x, n - 1);
        assert(l.push(x)[n - 1] == l[n - 1]);
    }
}

proof fn lemma_record(tick: nat, devs: Seq<Seq<char>>, wires: Seq<AppliedV>, n: int)
    requires
        tick <= u64::MAX,
        0 <= n <= devs.len(),
        devs.len() == wires.len(),
        forall|i: int| 0 <= i < devs.len() ==> plain_dev(#[trigger] devs[i]),
        forall|i: int| 0 <= i < devs.len() ==> plain_wire(#[trigger] wires[i]),
    ensures
        ({
            let t = record_text(tick, devs, wires, n);
            let l = lines(t);
            &&& ended(t)
            &&& l.len() == n + 2
            &&& l[0] == "cfab-shape-applied 1"@
            &&& tick_of(l) == Some(tick)
            &&& lines_refusal(l, 2) is None
            &&& wires_in(l, l.len() as int) == wires_map(devs, all_as_read(wires), n)
        }),
    decreases n,
{
    lemma_chars();
    if n > 0 {
        lemma_record(tick, devs, wires, n - 1);
        let t = record_text(tick, devs, wires, n - 1);
        let l = lines(t);
        let b = wire_body(devs[n - 1], wires[n - 1]);
        lemma_body_reads_back(devs[n - 1], wires[n - 1]);
        lemma_lines_push(t, b);
        assert(lines(record_text(tick, devs, wires, n)) == l.push(b));
        lemma_lines_refusal_push(l, b, 2);
        lemma_wires_in_push(l, b, l.len() as int);
        assert(l.push(b)[0] == l[0]);
        assert(l.push(b)[1] == l[1]);
        assert(l.push(b)[l.len() as int] == b);
    } else {
        reveal_strlit("cfab-shape-applied 1\n");
        reveal_strlit("cfab-shape-applied 1");
        reveal_strlit("tick ");
        let h = "cfab-shape-applied 1"@;
        let e: Seq<char> = seq![];
        assert(lines(e) =~= seq![]);
        assert(one_line(h)) by {
            assert forall|i: int| 0 <= i < h.len() implies h[i] != '\n' by {}
        }
        assert("cfab-shape-applied 1\n"@ =~= e + (h + seq!['\n']));
        lemma_lines_push(e, h);
        let t0 = "cfab-shape-applied 1\n"@;
        let d = dec(tick);
        let b = "tick "@ + d;
        lemma_dec(tick);
        assert(one_line(b)) by {
            assert forall|i: int| 0 <= i < b.len() implies b[i] != '\n' && b[i] != '\r' by {
                if i >= 5 {
                    assert(b[i] == d[i - 5]);
                    assert(crate::text::is_digit(d[i - 5]));
                }
            }
        }
        lemma_lines_push(t0, b);
        assert("tick "@ + d + "\n"@ =~= b + seq!['\n']);
        let l = lines(t0 + (b + seq!['\n']));
        assert(l =~= seq![h, b]);
        lemma_behind("tick "@, d);
        lemma_trim_digits(d);
        lemma_parse_dec(tick, u64::MAX as nat);
    }
}

/// A text of digits has nothing to trim.
proof fn lemma_trim_digits(d: Seq<char>)
    requires
        d.len() > 0,
        crate::text::all_digits(d),
    ensures
        trim(d) == d,
{
    assert(!is_space(d[0])) by {
        assert(crate::text::is_digit(d[0]));
    }
    assert(!is_space(d[d.len() - 1])) by {
        assert(crate::text::is_digit(d[d.len() - 1]));
    }
    assert(skip_space(d, 0) == 0);
    assert(crate::text::back_space(d, 0, d.len() as int) == d.len());
    assert(d.subrange(0, d.len() as int) =~= d);
}

/// A record that is written reads back: the same number, and the same wires with the same
/// classes, provided that no name or class holds what separates them. A line feed in a message
/// reads back as a space.
pub proof fn lemma_record_round_trip(tick: nat, devs: Seq<Seq<char>>, wires: Seq<AppliedV>)
    requires
        tick <= u64::MAX,
        devs.len() == wires.len(),
        forall|i: int| 0 <= i < devs.len() ==> plain_dev(#[trigger] devs[i]),
        forall|i: int| 0 <= i < devs.len() ==> plain_wire(#[trigger] wires[i]),
    ensures
        ({
            let t = record_text(tick, devs, wires, devs.len() as int);
            &&& record_refusal(t) is None
            &&& tick_of(lines(t)) == Some(tick)
            &&& record_wires(t) == wires_map(devs, all_as_read(wires), devs.len() as int)
        }),
{
    lemma_record(tick, devs, wires, devs.len() as int);
}

/// Where no message holds a line feed, what is read back is what was written.
pub proof fn lemma_plain_messages_read_back(wires: Seq<AppliedV>)
    requires
        forall|i: int|
            0 <= i < wires.len() ==> ((#[trigger] wires[i]) matches AppliedV::Failed(m)
                ==> !m.contains('\n')),
    ensures
        all_as_read(wires) == wires,
{
    assert forall|i: int| 0 <= i < wires.len() implies as_read(#[trigger] wires[i]) == wires[i] by {
        if let AppliedV::Failed(m) = wires[i] {
            lemma_spaced_plain(m);
        }
    }
    assert(all_as_read(wires) =~= wires);
}

} // verus!
