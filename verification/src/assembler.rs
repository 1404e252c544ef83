//! The two-pass assembler. A source line is tab-separated ASCII:
//! `label\topcode\toperands...`, with an empty label allowed. Pass one maps
//! every non-empty label to its word address; pass two lowers each line to
//! one 32-bit machine word.

use vstd::prelude::*;

use crate::instr::{
    is_i_op, ITypeInstruction, Instruction, JTypeInstruction, MathFunc, OpCode, RTypeInstruction,
    sext16,
};
use crate::text::{dec_val, func_name, is_dec_int, op_name, parse_dec, ParsedNum};

verus! {

/// Longest accepted source line, in bytes.
pub const MAXLINELENGTH: usize = 1000;

/// Most distinct labels a program may define.
pub const MAXNUMLABELS: usize = 10000;

/// Longest accepted label, in bytes.
pub const MAXLABELLENGTH: usize = 10;

/// What went wrong on a source line.
#[derive(Clone, Copy, Debug, PartialEq, Eq, Structural)]
pub enum AsmErrorKind {
    /// Unknown opcode, wrong arity, bad register, malformed line or label.
    Syntax,
    /// An immediate or displacement outside its field's signed range.
    Range,
    /// A duplicate, undefined, or over-abundant label.
    Symbol,
}

/// An assembly failure, keyed to the zero-based source line.
#[derive(Clone, Copy, Debug, PartialEq, Eq, Structural)]
pub struct AsmError {
    pub kind: AsmErrorKind,
    pub line: usize,
}

/// The views of a sequence of byte vectors.
pub open spec fn byte_lines(s: Seq<Vec<u8>>) -> Seq<Seq<u8>> {
    s.map_values(|v: Vec<u8>| v@)
}

// ---------------------------------------------------------------------------
// Tab-separated fields.
// ---------------------------------------------------------------------------

/// Index of the first tab in `s`, or -1.
pub open spec fn find_tab(s: Seq<u8>) -> int
    decreases s.len(),
{
    if s.len() == 0 {
        -1
    } else if s[0] == 9 {
        0
    } else {
        let r = find_tab(s.skip(1));
        if r < 0 {
            -1
        } else {
            r + 1
        }
    }
}

/// The first tab index is always inside the line.
pub proof fn lemma_find_tab_bound(s: Seq<u8>)
    ensures
        -1 <= find_tab(s) < s.len(),
    decreases s.len(),
{
    if s.len() > 0 && s[0] != 9 {
        lemma_find_tab_bound(s.skip(1));
    }
}

/// The fields of a line, split at every tab. Always non-empty; a line with
/// no tab is one field.
pub open spec fn split_tabs(s: Seq<u8>) -> Seq<Seq<u8>>
    decreases s.len(),
    via split_tabs_decreases
{
    let f = find_tab(s);
    if f < 0 {
        seq![s]
    } else {
        seq![s.take(f)] + split_tabs(s.skip(f + 1))
    }
}

#[via_fn]
proof fn split_tabs_decreases(s: Seq<u8>) {
    lemma_find_tab_bound(s);
}

proof fn lemma_find_tab_at(s: Seq<u8>, k: int)
    requires
        0 <= k < s.len(),
        s[k] == 9,
        forall|j: int| 0 <= j < k ==> s[j] != 9,
    ensures
        find_tab(s) == k,
    decreases k,
{
    if k == 0 {
    } else {
        assert(s.skip(1)[k - 1] == s[k]);
        assert forall|j: int| 0 <= j < k - 1 implies s.skip(1)[j] != 9 by {
            assert(s.skip(1)[j] == s[j + 1]);
        }
        lemma_find_tab_at(s.skip(1), k - 1);
    }
}

proof fn lemma_find_tab_none(s: Seq<u8>)
    requires
        forall|j: int| 0 <= j < s.len() ==> s[j] != 9,
    ensures
        find_tab(s) == -1,
    decreases s.len(),
{
    if s.len() > 0 {
        assert forall|j: int| 0 <= j < s.skip(1).len() implies s.skip(1)[j] != 9 by {
            assert(s.skip(1)[j] == s[j + 1]);
        }
        lemma_find_tab_none(s.skip(1));
    }
}

/// Splits a line at every tab.
pub fn split_fields(line: &Vec<u8>) -> (r: Vec<Vec<u8>>)
    ensures
        byte_lines(r@) == split_tabs(line@),
{
    let mut out: Vec<Vec<u8>> = Vec::new();
    let mut cur: Vec<u8> = Vec::new();
    let mut pos: usize = 0;
    let ghost mut tok_start: int = 0;
    proof {
        assert(line@.skip(0) =~= line@);
        assert(byte_lines(out@) + split_tabs(line@) =~= split_tabs(line@));
    }
    while pos < line.len()
        invariant
            0 <= tok_start <= pos <= line@.len(),
            cur@ == line@.subrange(tok_start, pos as int),
            forall|j: int| tok_start <= j < pos ==> line@[j] != 9,
            split_tabs(line@) == byte_lines(out@) + split_tabs(line@.skip(tok_start)),
        decreases line@.len() - pos,
    {
        let b = line[pos];
        if b == 9 {
            proof {
                let rest = line@.skip(tok_start);
                assert(rest[pos - tok_start] == line@[pos as int]);
                assert forall|j: int| 0 <= j < pos - tok_start implies rest[j] != 9 by {
                    assert(rest[j] == line@[j + tok_start]);
                }
                lemma_find_tab_at(rest, pos - tok_start);
                assert(rest.take(pos - tok_start) =~= line@.subrange(tok_start, pos as int));
                assert(rest.skip(pos - tok_start + 1) =~= line@.skip(pos + 1));
            }
            out.push(cur);
            cur = Vec::new();
            proof {
                assert(byte_lines(out@) =~= byte_lines(out@.drop_last()) + seq![
                    out@.last()@,
                ]);
                assert(split_tabs(line@) =~= byte_lines(out@) + split_tabs(line@.skip(pos + 1)));
                tok_start = pos + 1;
                assert(cur@ =~= line@.subrange(tok_start, pos + 1));
            }
        } else {
            cur.push(b);
            proof {
                assert(cur@ =~= line@.subrange(tok_start, pos + 1));
            }
        }
        pos = pos + 1;
    }
    proof {
        let rest = line@.skip(tok_start);
        assert forall|j: int| 0 <= j < rest.len() implies rest[j] != 9 by {
            assert(rest[j] == line@[j + tok_start]);
        }
        lemma_find_tab_none(rest);
        assert(cur@ =~= rest);
    }
    out.push(cur);
    proof {
        assert(byte_lines(out@) =~= byte_lines(out@.drop_last()) + seq![out@.last()@]);
        assert(byte_lines(out@) =~= split_tabs(line@));
    }
    out
}

/// The first two fields of a line (label and opcode) and the remaining
/// operand fields; `None` when the line has no tab at all.
pub fn parse_label_opcode(line: &Vec<u8>) -> (r: Option<(Vec<u8>, Vec<u8>, Vec<Vec<u8>>)>)
    ensures
        match r {
            Some((label, op, rest)) => {
                &&& split_tabs(line@).len() >= 2
                &&& label@ == split_tabs(line@)[0]
                &&& op@ == split_tabs(line@)[1]
                &&& byte_lines(rest@) == split_tabs(line@).skip(2)
            },
            None => split_tabs(line@).len() < 2,
        },
{
    let mut fields = split_fields(line);
    if fields.len() < 2 {
        return None;
    }
    let label = fields.remove(0);
    let op = fields.remove(0);
    proof {
        assert(byte_lines(fields@) =~= split_tabs(line@).skip(2));
    }
    Some((label, op, fields))
}

/// Byte-wise equality of two byte vectors.
pub fn bytes_eq(a: &Vec<u8>, b: &Vec<u8>) -> (r: bool)
    ensures
        r <==> a@ == b@,
{
    if a.len() != b.len() {
        proof {
            assert(a@ != b@);
        }
        return false;
    }
    let mut i: usize = 0;
    while i < a.len()
        invariant
            i <= a@.len(),
            a@.len() == b@.len(),
            forall|j: int| 0 <= j < i ==> a@[j] == b@[j],
        decreases a@.len() - i,
    {
        if a[i] != b[i] {
            return false;
        }
        i = i + 1;
    }
    proof {
        assert(a@ =~= b@);
    }
    true
}

// ---------------------------------------------------------------------------
// The symbol table.
// ---------------------------------------------------------------------------

/// The map held by a run of `(label, address)` entries.
pub open spec fn entries_map(s: Seq<(Vec<u8>, u32)>) -> Map<Seq<u8>, u32>
    decreases s.len(),
{
    if s.len() == 0 {
        Map::empty()
    } else {
        entries_map(s.drop_last()).insert(s.last().0@, s.last().1)
    }
}

proof fn lemma_entries_map_get(s: Seq<(Vec<u8>, u32)>, i: int)
    requires
        0 <= i < s.len(),
        forall|p: int, q: int| 0 <= p < q < s.len() ==> s[p].0@ != s[q].0@,
    ensures
        entries_map(s).contains_key(s[i].0@),
        entries_map(s)[s[i].0@] == s[i].1,
    decreases s.len(),
{
    if i == s.len() - 1 {
    } else {
        assert(s.drop_last()[i] == s[i]);
        lemma_entries_map_get(s.drop_last(), i);
    }
}

proof fn lemma_entries_map_none(s: Seq<(Vec<u8>, u32)>, k: Seq<u8>)
    requires
        forall|p: int| 0 <= p < s.len() ==> s[p].0@ != k,
    ensures
        !entries_map(s).contains_key(k),
    decreases s.len(),
{
    if s.len() > 0 {
        lemma_entries_map_none(s.drop_last(), k);
    }
}

/// A label-to-address table with unique labels.
pub struct LabelTable {
    pub entries: Vec<(Vec<u8>, u32)>,
}

impl LabelTable {
    /// No label occurs twice.
    pub open spec fn wf(self) -> bool {
        forall|p: int, q: int|
            0 <= p < q < self.entries@.len() ==> self.entries@[p].0@ != self.entries@[q].0@
    }

    /// The label-to-address map this table holds.
    pub open spec fn as_map(self) -> Map<Seq<u8>, u32> {
        entries_map(self.entries@)
    }

    pub fn new() -> (r: LabelTable)
        ensures
            r.wf(),
            r.as_map() == Map::<Seq<u8>, u32>::empty(),
            r.entries@.len() == 0,
    {
        LabelTable { entries: Vec::new() }
    }

    /// The address recorded for a label, if any.
    pub fn lookup(&self, name: &Vec<u8>) -> (r: Option<u32>)
        requires
            self.wf(),
        ensures
            match r {
                Some(a) => self.as_map().contains_key(name@) && self.as_map()[name@] == a,
                None => !self.as_map().contains_key(name@),
            },
    {
        let mut i: usize = 0;
        while i < self.entries.len()
            invariant
                self.wf(),
                i <= self.entries@.len(),
                forall|j: int| 0 <= j < i ==> self.entries@[j].0@ != name@,
            decreases self.entries@.len() - i,
        {
            if bytes_eq(&self.entries[i].0, name) {
                proof {
                    lemma_entries_map_get(self.entries@, i as int);
                }
                return Some(self.entries[i].1);
            }
            i = i + 1;
        }
        proof {
            lemma_entries_map_none(self.entries@, name@);
        }
        None
    }

    /// Records a fresh label.
    pub fn insert(&mut self, name: Vec<u8>, addr: u32)
        requires
            old(self).wf(),
            !old(self).as_map().contains_key(name@),
        ensures
            final(self).wf(),
            final(self).as_map() == old(self).as_map().insert(name@, addr),
            final(self).entries@.len() == old(self).entries@.len() + 1,
    {
        proof {
            assert forall|p: int| 0 <= p < self.entries@.len() implies self.entries@[p].0@
                != name@ by {
                if self.entries@[p].0@ == name@ {
                    lemma_entries_map_get(self.entries@, p);
                }
            }
        }
        self.entries.push((name, addr));
        proof {
            assert(self.entries@.drop_last() =~= old(self).entries@);
        }
    }
}

// ---------------------------------------------------------------------------
// Pass one: label resolution.
// ---------------------------------------------------------------------------

pub open spec fn is_alnum(b: u8) -> bool {
    (48 <= b <= 57) || (65 <= b <= 90) || (97 <= b <= 122)
}

/// A label is alphanumeric and at most `MAXLABELLENGTH` bytes; empty means
/// the line is unlabelled.
pub open spec fn label_ok(l: Seq<u8>) -> bool {
    l.len() <= 10 && forall|i: int| 0 <= i < l.len() ==> is_alnum(#[trigger] l[i])
}

/// A line pass one accepts: within the length limit, at least two fields,
/// and a well-formed (possibly empty) label.
pub open spec fn line_shape_ok(line: Seq<u8>) -> bool {
    line.len() <= 1000 && split_tabs(line).len() >= 2 && label_ok(split_tabs(line)[0])
}

/// Pass one over `lines[i..]`, with `acc` the labels found so far and `cnt`
/// how many there are: walks every line in order, records
/// `label -> line index * 4`, and fails on the first malformed line,
/// duplicate label, or label beyond the `MAXNUMLABELS` limit.
pub open spec fn spec_pass1(
    lines: Seq<Seq<u8>>,
    i: int,
    acc: Map<Seq<u8>, u32>,
    cnt: int,
) -> Result<Map<Seq<u8>, u32>, AsmError>
    decreases lines.len() - i,
{
    if i < 0 || i >= lines.len() {
        Ok(acc)
    } else {
        let line = lines[i];
        if !line_shape_ok(line) {
            Err(AsmError { kind: AsmErrorKind::Syntax, line: i as usize })
        } else {
            let label = split_tabs(line)[0];
            if label.len() == 0 {
                spec_pass1(lines, i + 1, acc, cnt)
            } else if acc.contains_key(label) {
                Err(AsmError { kind: AsmErrorKind::Symbol, line: i as usize })
            } else if cnt >= 10000 {
                Err(AsmError { kind: AsmErrorKind::Symbol, line: i as usize })
            } else {
                spec_pass1(lines, i + 1, acc.insert(label, (4 * i) as u32), cnt + 1)
            }
        }
    }
}

/// The label field of a line.
pub open spec fn label_of(line: Seq<u8>) -> Seq<u8> {
    split_tabs(line)[0]
}

proof fn lemma_pass1_sub(lines: Seq<Seq<u8>>, i: int, acc: Map<Seq<u8>, u32>, cnt: int)
    requires
        0 <= i <= lines.len(),
        lines.len() <= 0x3fff_ffff,
        spec_pass1(lines, i, acc, cnt) is Ok,
    ensures
        forall|k: Seq<u8>|
            #[trigger] acc.contains_key(k) ==> spec_pass1(lines, i, acc, cnt)->Ok_0.contains_key(k)
                && spec_pass1(lines, i, acc, cnt)->Ok_0[k] == acc[k],
        forall|j: int|
            i <= j < lines.len() && label_of(#[trigger] lines[j]).len() > 0 ==> spec_pass1(
                lines,
                i,
                acc,
                cnt,
            )->Ok_0.contains_key(label_of(lines[j])) && spec_pass1(lines, i, acc, cnt)->Ok_0[
                label_of(lines[j])] == 4 * j,
        forall|k: Seq<u8>|
            spec_pass1(lines, i, acc, cnt)->Ok_0.contains_key(k) ==> acc.contains_key(k) || exists|
                j: int,
            | i <= j < lines.len() && label_of(#[trigger] lines[j]) == k,
    decreases lines.len() - i,
{
    let m = spec_pass1(lines, i, acc, cnt)->Ok_0;
    if i == lines.len() {
    } else {
        let line = lines[i];
        let label = label_of(line);
        if label.len() == 0 {
            lemma_pass1_sub(lines, i + 1, acc, cnt);
        } else {
            let acc2 = acc.insert(label, (4 * i) as u32);
            lemma_pass1_sub(lines, i + 1, acc2, cnt + 1);
            assert((4 * i) as u32 == 4 * i);
            assert forall|k: Seq<u8>| #[trigger] acc.contains_key(k) implies m.contains_key(k)
                && m[k] == acc[k] by {
                assert(acc2.contains_key(k));
                assert(acc2[k] == acc[k]);
            }
            assert forall|j: int|
                i <= j < lines.len() && label_of(#[trigger] lines[j]).len() > 0 implies m
                .contains_key(label_of(lines[j])) && m[label_of(lines[j])] == 4 * j by {
                if j == i {
                    assert(acc2.contains_key(label));
                    assert(m.contains_key(label) && m[label] == acc2[label]);
                }
            }
            assert forall|k: Seq<u8>| m.contains_key(k) implies acc.contains_key(k) || exists|
                j: int,
            | i <= j < lines.len() && label_of(#[trigger] lines[j]) == k by {
                if !acc.contains_key(k) {
                    if k == label {
                        assert(label_of(lines[i]) == k);
                        assert(exists|j: int|
                            i <= j < lines.len() && label_of(#[trigger] lines[j]) == k);
                    } else {
                        assert(!acc2.contains_key(k));
                        let j = choose|j: int|
                            i + 1 <= j < lines.len() && label_of(#[trigger] lines[j]) == k;
                        assert(i <= j < lines.len() && label_of(lines[j]) == k);
                    }
                }
            }
        }
    }
}

/// What a successful first pass means: every non-empty label maps to four
/// times its line index, and the table holds nothing else.
pub proof fn lemma_pass1_addresses(lines: Seq<Seq<u8>>, m: Map<Seq<u8>, u32>)
    requires
        lines.len() <= 0x3fff_ffff,
        spec_pass1(lines, 0, Map::empty(), 0) == Ok::<_, AsmError>(m),
    ensures
        forall|j: int|
            0 <= j < lines.len() && label_of(#[trigger] lines[j]).len() > 0 ==> m.contains_key(
                label_of(lines[j]),
            ) && m[label_of(lines[j])] == 4 * j,
        forall|k: Seq<u8>|
            m.contains_key(k) ==> exists|j: int|
                0 <= j < lines.len() && label_of(#[trigger] lines[j]) == k,
{
    lemma_pass1_sub(lines, 0, Map::empty(), 0);
    assert forall|k: Seq<u8>| m.contains_key(k) implies exists|j: int|
        0 <= j < lines.len() && label_of(#[trigger] lines[j]) == k by {
        assert(spec_pass1(lines, 0, Map::empty(), 0)->Ok_0.contains_key(k));
        assert(!Map::<Seq<u8>, u32>::empty().contains_key(k));
    }
}

proof fn lemma_pass2_sub(lines: Seq<Seq<u8>>, i: int, labels: Map<Seq<u8>, u32>)
    requires
        0 <= i <= lines.len(),
        spec_pass2(lines, i, labels) is Ok,
    ensures
        spec_pass2(lines, i, labels)->Ok_0.len() == lines.len() - i,
        forall|j: int|
            i <= j < lines.len() ==> asm_line(#[trigger] lines[j], j, labels) == Ok::<
                u32,
                AsmErrorKind,
            >(spec_pass2(lines, i, labels)->Ok_0[j - i]),
    decreases lines.len() - i,
{
    if i < lines.len() {
        lemma_pass2_sub(lines, i + 1, labels);
    }
}

/// What a successful second pass means: one word per line, each the one its
/// own line assembles to.
pub proof fn lemma_pass2_words(lines: Seq<Seq<u8>>, labels: Map<Seq<u8>, u32>, ws: Seq<u32>)
    requires
        spec_pass2(lines, 0, labels) == Ok::<_, AsmError>(ws),
    ensures
        ws.len() == lines.len(),
        forall|j: int|
            0 <= j < lines.len() ==> asm_line(#[trigger] lines[j], j, labels) == Ok::<
                u32,
                AsmErrorKind,
            >(ws[j]),
{
    lemma_pass2_sub(lines, 0, labels);
}

fn check_label(label: &Vec<u8>) -> (r: bool)
    ensures
        r <==> label_ok(label@),
{
    if label.len() > MAXLABELLENGTH {
        return false;
    }
    let mut i: usize = 0;
    while i < label.len()
        invariant
            i <= label@.len(),
            forall|j: int| 0 <= j < i ==> is_alnum(#[trigger] label@[j]),
        decreases label@.len() - i,
    {
        let b = label[i];
        let ok = (48 <= b && b <= 57) || (65 <= b && b <= 90) || (97 <= b && b <= 122);
        if !ok {
            assert(!is_alnum(label@[i as int]));
            return false;
        }
        i = i + 1;
    }
    true
}

/// Pass one: the label table of a program, or its first failure.
pub fn get_labels(lines: &Vec<Vec<u8>>) -> (r: Result<LabelTable, AsmError>)
    requires
        lines@.len() <= 0x3fff_ffff,
    ensures
        match r {
            Ok(t) => t.wf() && spec_pass1(byte_lines(lines@), 0, Map::empty(), 0) == Ok::<
                _,
                AsmError,
            >(t.as_map()),
            Err(e) => spec_pass1(byte_lines(lines@), 0, Map::empty(), 0) == Err::<
                Map<Seq<u8>, u32>,
                _,
            >(e),
        },
{
    let ghost all = byte_lines(lines@);
    let mut tab = LabelTable::new();
    let mut i: usize = 0;
    while i < lines.len()
        invariant
            i <= lines@.len(),
            lines@.len() <= 0x3fff_ffff,
            all == byte_lines(lines@),
            tab.wf(),
            spec_pass1(all, 0, Map::empty(), 0) == spec_pass1(
                all,
                i as int,
                tab.as_map(),
                tab.entries@.len() as int,
            ),
        decreases lines@.len() - i,
    {
        let line = &lines[i];
        proof {
            assert(all[i as int] == line@);
        }
        if line.len() > MAXLINELENGTH {
            return Err(AsmError { kind: AsmErrorKind::Syntax, line: i });
        }
        match parse_label_opcode(line) {
            None => {
                return Err(AsmError { kind: AsmErrorKind::Syntax, line: i });
            },
            Some((label, _op, _rest)) => {
                if !check_label(&label) {
                    return Err(AsmError { kind: AsmErrorKind::Syntax, line: i });
                }
                if label.len() > 0 {
                    match tab.lookup(&label) {
                        Some(_) => {
                            return Err(AsmError { kind: AsmErrorKind::Symbol, line: i });
                        },
                        None => {
                            if tab.entries.len() >= MAXNUMLABELS {
                                return Err(AsmError { kind: AsmErrorKind::Symbol, line: i });
                            }
                            tab.insert(label, 4 * (i as u32));
                        },
                    }
                }
            },
        }
        i = i + 1;
    }
    Ok(tab)
}

// ---------------------------------------------------------------------------
// Pass two: lowering a line to a word.
// ---------------------------------------------------------------------------

/// The mnemonic of an R-format function, if `tok` is one.
pub open spec fn mnem_func(tok: Seq<u8>) -> Option<MathFunc> {
    if tok == func_name(MathFunc::ADD) {
        Some(MathFunc::ADD)
    } else if tok == func_name(MathFunc::SLL) {
        Some(MathFunc::SLL)
    } else if tok == func_name(MathFunc::SRL) {
        Some(MathFunc::SRL)
    } else if tok == func_name(MathFunc::SUB) {
        Some(MathFunc::SUB)
    } else if tok == func_name(MathFunc::AND) {
        Some(MathFunc::AND)
    } else if tok == func_name(MathFunc::OR) {
        Some(MathFunc::OR)
    } else {
        None
    }
}

/// The mnemonics an assembly line may carry besides the R-format functions;
/// `math` itself is not an assembly mnemonic.
pub open spec fn mnem_op(tok: Seq<u8>) -> Option<OpCode> {
    if tok == op_name(OpCode::LW) {
        Some(OpCode::LW)
    } else if tok == op_name(OpCode::SW) {
        Some(OpCode::SW)
    } else if tok == op_name(OpCode::ADDI) {
        Some(OpCode::ADDI)
    } else if tok == op_name(OpCode::BEQZ) {
        Some(OpCode::BEQZ)
    } else if tok == op_name(OpCode::JALR) {
        Some(OpCode::JALR)
    } else if tok == op_name(OpCode::HALT) {
        Some(OpCode::HALT)
    } else {
        None
    }
}

/// The `.fill` pseudo-opcode.
pub open spec fn fill_name() -> Seq<u8> {
    seq![46u8, 102u8, 105u8, 108u8, 108u8]
}

/// `tok` names a register: an unsigned decimal in [0, 31].
pub open spec fn reg_ok(tok: Seq<u8>) -> bool {
    is_dec_int(tok) && tok[0] != 45 && 0 <= dec_val(tok) < 32
}

/// The two's complement 16-bit image of a signed value.
pub open spec fn i16_bits(v: int) -> u16
    recommends
        -0x8000 <= v < 0x8000,
{
    if v >= 0 {
        v as u16
    } else {
        (v + 0x10000) as u16
    }
}

/// The two's complement 32-bit image of a signed value.
pub open spec fn u32_bits(v: int) -> u32
    recommends
        -0x8000_0000 <= v < 0x1_0000_0000,
{
    if v >= 0 {
        v as u32
    } else {
        (v + 0x1_0000_0000) as u32
    }
}

/// An operand that is either a signed 16-bit decimal or a label resolved to
/// its absolute word address (which must also fit the signed 16-bit field).
pub open spec fn spec_parse_imm(tok: Seq<u8>, labels: Map<Seq<u8>, u32>) -> Result<
    int,
    AsmErrorKind,
> {
    if is_dec_int(tok) {
        if -0x8000 <= dec_val(tok) < 0x8000 {
            Ok(dec_val(tok))
        } else {
            Err(AsmErrorKind::Range)
        }
    } else if labels.contains_key(tok) {
        if labels[tok] < 0x8000 {
            Ok(labels[tok] as int)
        } else {
            Err(AsmErrorKind::Range)
        }
    } else {
        Err(AsmErrorKind::Symbol)
    }
}

/// The machine word a source line assembles to at line index `idx`, or why
/// it is rejected. `BEQZ` resolves a label operand to the PC-relative
/// displacement `label_addr - 4*idx - 4`; the other I-format opcodes and
/// `JALR` resolve labels to absolute addresses.
pub open spec fn asm_line(line: Seq<u8>, idx: int, labels: Map<Seq<u8>, u32>) -> Result<
    u32,
    AsmErrorKind,
> {
    let f = split_tabs(line);
    if f.len() < 2 {
        Err(AsmErrorKind::Syntax)
    } else {
        let op = f[1];
        if mnem_func(op) is Some {
            let func = mnem_func(op)->Some_0;
            if f.len() < 5 {
                Err(AsmErrorKind::Syntax)
            } else if !(reg_ok(f[2]) && reg_ok(f[3]) && reg_ok(f[4])) {
                Err(AsmErrorKind::Syntax)
            } else {
                Ok(
                    Instruction::R(
                        RTypeInstruction {
                            func,
                            rd: dec_val(f[2]) as u8,
                            rs: dec_val(f[3]) as u8,
                            rt: dec_val(f[4]) as u8,
                            shamt: 0,
                        },
                    ).spec_word(),
                )
            }
        } else if mnem_op(op) is Some {
            let o = mnem_op(op)->Some_0;
            if is_i_op(o) {
                if f.len() < 5 {
                    Err(AsmErrorKind::Syntax)
                } else if !(reg_ok(f[2]) && reg_ok(f[3])) {
                    Err(AsmErrorKind::Syntax)
                } else {
                    let rt = dec_val(f[2]) as u8;
                    let rs = dec_val(f[3]) as u8;
                    if o == OpCode::BEQZ && !is_dec_int(f[4]) {
                        if labels.contains_key(f[4]) {
                            let disp = labels[f[4]] - 4 * idx - 4;
                            if -0x8000 <= disp < 0x8000 {
                                Ok(
                                    Instruction::I(
                                        ITypeInstruction { op: o, rs, rt, imm: i16_bits(disp) },
                                    ).spec_word(),
                                )
                            } else {
                                Err(AsmErrorKind::Range)
                            }
                        } else {
                            Err(AsmErrorKind::Symbol)
                        }
                    } else {
                        match spec_parse_imm(f[4], labels) {
                            Ok(v) => Ok(
                                Instruction::I(
                                    ITypeInstruction { op: o, rs, rt, imm: i16_bits(v) },
                                ).spec_word(),
                            ),
                            Err(k) => Err(k),
                        }
                    }
                }
            } else if o == OpCode::JALR {
                if f.len() < 3 {
                    Err(AsmErrorKind::Syntax)
                } else {
                    match spec_parse_imm(f[2], labels) {
                        Ok(v) => Ok(
                            Instruction::J(
                                JTypeInstruction {
                                    op: OpCode::JALR,
                                    offset: sext16(i16_bits(v)) & 0x3ffffff,
                                },
                            ).spec_word(),
                        ),
                        Err(k) => Err(k),
                    }
                }
            } else {
                Ok(Instruction::J(JTypeInstruction { op: OpCode::HALT, offset: 0 }).spec_word())
            }
        } else if op == fill_name() {
            if f.len() < 3 {
                Err(AsmErrorKind::Syntax)
            } else if is_dec_int(f[2]) {
                if -0x8000_0000 <= dec_val(f[2]) < 0x1_0000_0000 {
                    Ok(u32_bits(dec_val(f[2])))
                } else {
                    Err(AsmErrorKind::Range)
                }
            } else {
                Err(AsmErrorKind::Syntax)
            }
        } else {
            Err(AsmErrorKind::Syntax)
        }
    }
}

fn match_func(tok: &Vec<u8>) -> (r: Option<MathFunc>)
    ensures
        r == mnem_func(tok@),
{
    let n = tok.len();
    if n == 3 && tok[0] == 97 && tok[1] == 100 && tok[2] == 100 {
        proof {
            assert(tok@ =~= func_name(MathFunc::ADD));
        }
        Some(MathFunc::ADD)
    } else if n == 3 && tok[0] == 115 && tok[1] == 108 && tok[2] == 108 {
        proof {
            assert(tok@ =~= func_name(MathFunc::SLL));
        }
        Some(MathFunc::SLL)
    } else if n == 3 && tok[0] == 115 && tok[1] == 114 && tok[2] == 108 {
        proof {
            assert(tok@ =~= func_name(MathFunc::SRL));
        }
        Some(MathFunc::SRL)
    } else if n == 3 && tok[0] == 115 && tok[1] == 117 && tok[2] == 98 {
        proof {
            assert(tok@ =~= func_name(MathFunc::SUB));
        }
        Some(MathFunc::SUB)
    } else if n == 3 && tok[0] == 97 && tok[1] == 110 && tok[2] == 100 {
        proof {
            assert(tok@ =~= func_name(MathFunc::AND));
        }
        Some(MathFunc::AND)
    } else if n == 2 && tok[0] == 111 && tok[1] == 114 {
        proof {
            assert(tok@ =~= func_name(MathFunc::OR));
        }
        Some(MathFunc::OR)
    } else {
        None
    }
}

fn match_op(tok: &Vec<u8>) -> (r: Option<OpCode>)
    ensures
        r == mnem_op(tok@),
{
    let n = tok.len();
    if n == 2 && tok[0] == 108 && tok[1] == 119 {
        proof {
            assert(tok@ =~= op_name(OpCode::LW));
        }
        Some(OpCode::LW)
    } else if n == 2 && tok[0] == 115 && tok[1] == 119 {
        proof {
            assert(tok@ =~= op_name(OpCode::SW));
        }
        Some(OpCode::SW)
    } else if n == 4 && tok[0] == 97 && tok[1] == 100 && tok[2] == 100 && tok[3] == 105 {
        proof {
            assert(tok@ =~= op_name(OpCode::ADDI));
        }
        Some(OpCode::ADDI)
    } else if n == 4 && tok[0] == 98 && tok[1] == 101 && tok[2] == 113 && tok[3] == 122 {
        proof {
            assert(tok@ =~= op_name(OpCode::BEQZ));
        }
        Some(OpCode::BEQZ)
    } else if n == 4 && tok[0] == 106 && tok[1] == 97 && tok[2] == 108 && tok[3] == 114 {
        proof {
            assert(tok@ =~= op_name(OpCode::JALR));
        }
        Some(OpCode::JALR)
    } else if n == 4 && tok[0] == 104 && tok[1] == 97 && tok[2] == 108 && tok[3] == 116 {
        proof {
            assert(tok@ =~= op_name(OpCode::HALT));
        }
        Some(OpCode::HALT)
    } else {
        None
    }
}

fn match_fill(tok: &Vec<u8>) -> (r: bool)
    ensures
        r <==> tok@ == fill_name(),
{
    let n = tok.len();
    if n == 5 && tok[0] == 46 && tok[1] == 102 && tok[2] == 105 && tok[3] == 108 && tok[4] == 108 {
        proof {
            assert(tok@ =~= fill_name());
        }
        true
    } else {
        false
    }
}

/// Parses a register operand: an unsigned decimal in [0, 31].
fn parse_reg(tok: &Vec<u8>) -> (r: Result<u8, AsmErrorKind>)
    ensures
        match r {
            Ok(v) => reg_ok(tok@) && v == dec_val(tok@),
            Err(k) => !reg_ok(tok@) && k == AsmErrorKind::Syntax,
        },
{
    match parse_dec(tok) {
        ParsedNum::Val(v) => {
            assert(tok@.len() > 0);
            if tok[0] != 45 && 0 <= v && v < 32 {
                Ok(v as u8)
            } else {
                Err(AsmErrorKind::Syntax)
            }
        },
        ParsedNum::TooBig => Err(AsmErrorKind::Syntax),
        ParsedNum::NotNum => Err(AsmErrorKind::Syntax),
    }
}

/// An immediate operand: a signed 16-bit decimal, or a label resolved to
/// its absolute word address.
pub fn parse_imm(imm: &Vec<u8>, labels: &LabelTable) -> (r: Result<i16, AsmErrorKind>)
    requires
        labels.wf(),
    ensures
        match r {
            Ok(v) => spec_parse_imm(imm@, labels.as_map()) == Ok::<int, AsmErrorKind>(v as int),
            Err(k) => spec_parse_imm(imm@, labels.as_map()) == Err::<int, AsmErrorKind>(k),
        },
{
    match parse_dec(imm) {
        ParsedNum::Val(v) => {
            if -0x8000 <= v && v < 0x8000 {
                Ok(v as i16)
            } else {
                Err(AsmErrorKind::Range)
            }
        },
        ParsedNum::TooBig => Err(AsmErrorKind::Range),
        ParsedNum::NotNum => {
            match labels.lookup(imm) {
                Some(a) => {
                    if a < 0x8000 {
                        Ok(a as i16)
                    } else {
                        Err(AsmErrorKind::Range)
                    }
                },
                None => Err(AsmErrorKind::Symbol),
            }
        },
    }
}

/// Lowers one source line at line index `idx` to its machine word.
pub fn assemble_line(line: &Vec<u8>, idx: usize, labels: &LabelTable) -> (r: Result<
    u32,
    AsmErrorKind,
>)
    requires
        labels.wf(),
        idx <= 0x3fff_ffff,
    ensures
        r == asm_line(line@, idx as int, labels.as_map()),
{
    let parsed = parse_label_opcode(line);
    match parsed {
        None => Err(AsmErrorKind::Syntax),
        Some((_label, op, rest)) => {
            let ghost f = split_tabs(line@);
            proof {
                assert(f.len() == byte_lines(rest@).len() + 2);
            }
            if let Some(func) = match_func(&op) {
                if rest.len() < 3 {
                    return Err(AsmErrorKind::Syntax);
                }
                proof {
                    assert(byte_lines(rest@)[0] == rest@[0]@ && byte_lines(rest@)[0] == f[2]);
                    assert(byte_lines(rest@)[1] == rest@[1]@ && byte_lines(rest@)[1] == f[3]);
                    assert(byte_lines(rest@)[2] == rest@[2]@ && byte_lines(rest@)[2] == f[4]);
                }
                let rd = match parse_reg(&rest[0]) {
                    Ok(v) => v,
                    Err(k) => {
                        return Err(k);
                    },
                };
                let rs = match parse_reg(&rest[1]) {
                    Ok(v) => v,
                    Err(k) => {
                        return Err(k);
                    },
                };
                let rt = match parse_reg(&rest[2]) {
                    Ok(v) => v,
                    Err(k) => {
                        return Err(k);
                    },
                };
                Ok(Instruction::R(RTypeInstruction { func, rs, rt, rd, shamt: 0 }).as_u32())
            } else if let Some(o) = match_op(&op) {
                match o {
                    OpCode::ADDI | OpCode::LW | OpCode::SW | OpCode::BEQZ => {
                        if rest.len() < 3 {
                            return Err(AsmErrorKind::Syntax);
                        }
                        proof {
                            assert(byte_lines(rest@)[0] == rest@[0]@ && byte_lines(rest@)[0] == f[2]);
                            assert(byte_lines(rest@)[1] == rest@[1]@ && byte_lines(rest@)[1] == f[3]);
                            assert(byte_lines(rest@)[2] == rest@[2]@ && byte_lines(rest@)[2] == f[4]);
                        }
                        let rt = match parse_reg(&rest[0]) {
                            Ok(v) => v,
                            Err(k) => {
                                return Err(k);
                            },
                        };
                        let rs = match parse_reg(&rest[1]) {
                            Ok(v) => v,
                            Err(k) => {
                                return Err(k);
                            },
                        };
                        let is_beqz = matches!(o, OpCode::BEQZ);
                        let imm_tok = &rest[2];
                        let numeric = !matches!(parse_dec(imm_tok), ParsedNum::NotNum);
                        let bits: u16 = if is_beqz && !numeric {
                            match labels.lookup(imm_tok) {
                                None => {
                                    return Err(AsmErrorKind::Symbol);
                                },
                                Some(addr) => {
                                    let disp: i64 = addr as i64 - 4 * (idx as i64) - 4;
                                    if disp < -0x8000 || disp >= 0x8000 {
                                        return Err(AsmErrorKind::Range);
                                    }
                                    if disp >= 0 {
                                        disp as u16
                                    } else {
                                        (disp + 0x10000) as u16
                                    }
                                },
                            }
                        } else {
                            match parse_imm(imm_tok, labels) {
                                Err(k) => {
                                    return Err(k);
                                },
                                Ok(v) => {
                                    if v >= 0 {
                                        v as u16
                                    } else {
                                        ((v as i32) + 0x10000) as u16
                                    }
                                },
                            }
                        };
                        Ok(Instruction::I(ITypeInstruction { op: o, rs, rt, imm: bits }).as_u32())
                    },
                    OpCode::JALR => {
                        if rest.len() < 1 {
                            return Err(AsmErrorKind::Syntax);
                        }
                        proof {
                            assert(byte_lines(rest@)[0] == rest@[0]@ && byte_lines(rest@)[0] == f[2]);
                        }
                        match parse_imm(&rest[0], labels) {
                            Err(k) => Err(k),
                            Ok(v) => {
                                let w = Instruction::jalr(v).as_u32();
                                proof {
                                    assert(i16_bits(v as int) == #[verifier::truncate] (v as u16))
                                        by (bit_vector);
                                }
                                Ok(w)
                            },
                        }
                    },
                    _ => Ok(Instruction::J(JTypeInstruction { op: OpCode::HALT, offset: 0 }).as_u32()),
                }
            } else if match_fill(&op) {
                if rest.len() < 1 {
                    return Err(AsmErrorKind::Syntax);
                }
                proof {
                    assert(byte_lines(rest@)[0] == rest@[0]@ && byte_lines(rest@)[0] == f[2]);
                }
                match parse_dec(&rest[0]) {
                    ParsedNum::NotNum => Err(AsmErrorKind::Syntax),
                    ParsedNum::TooBig => Err(AsmErrorKind::Range),
                    ParsedNum::Val(v) => {
                        if v < -0x8000_0000 || v >= 0x1_0000_0000 {
                            Err(AsmErrorKind::Range)
                        } else if v >= 0 {
                            Ok(v as u32)
                        } else {
                            Ok((v + 0x1_0000_0000) as u32)
                        }
                    },
                }
            } else {
                Err(AsmErrorKind::Syntax)
            }
        },
    }
}

/// Pass two over `lines[i..]`: each line's word in order, or the first
/// failure with its line number.
pub open spec fn spec_pass2(lines: Seq<Seq<u8>>, i: int, labels: Map<Seq<u8>, u32>) -> Result<
    Seq<u32>,
    AsmError,
>
    decreases lines.len() - i,
{
    if i < 0 || i >= lines.len() {
        Ok(Seq::empty())
    } else {
        match asm_line(lines[i], i, labels) {
            Err(k) => Err(AsmError { kind: k, line: i as usize }),
            Ok(w) => match spec_pass2(lines, i + 1, labels) {
                Ok(rest) => Ok(seq![w] + rest),
                Err(e) => Err(e),
            },
        }
    }
}

/// Pass two: every line's machine word, or the first failure.
pub fn write_instructions(lines: &Vec<Vec<u8>>, labels: &LabelTable) -> (r: Result<
    Vec<u32>,
    AsmError,
>)
    requires
        labels.wf(),
        lines@.len() <= 0x3fff_ffff,
    ensures
        match r {
            Ok(words) => spec_pass2(byte_lines(lines@), 0, labels.as_map()) == Ok::<_, AsmError>(
                words@,
            ),
            Err(e) => spec_pass2(byte_lines(lines@), 0, labels.as_map()) == Err::<Seq<u32>, _>(e),
        },
{
    let ghost all = byte_lines(lines@);
    let ghost m = labels.as_map();
    let mut out: Vec<u32> = Vec::new();
    let mut i: usize = 0;
    proof {
        if spec_pass2(all, 0, m) is Ok {
            assert(out@ + spec_pass2(all, 0, m)->Ok_0 =~= spec_pass2(all, 0, m)->Ok_0);
        }
    }
    while i < lines.len()
        invariant
            i <= lines@.len(),
            lines@.len() <= 0x3fff_ffff,
            labels.wf(),
            all == byte_lines(lines@),
            m == labels.as_map(),
            out@.len() == i,
            spec_pass2(all, 0, m) == match spec_pass2(all, i as int, m) {
                Ok(rest) => Ok::<Seq<u32>, AsmError>(out@ + rest),
                Err(e) => Err::<Seq<u32>, AsmError>(e),
            },
        decreases lines@.len() - i,
    {
        let line = &lines[i];
        proof {
            assert(all[i as int] == line@);
        }
        match assemble_line(line, i, labels) {
            Err(k) => {
                return Err(AsmError { kind: k, line: i });
            },
            Ok(w) => {
                let ghost prev = out@;
                out.push(w);
                proof {
                    assert(spec_pass2(all, i as int, m) == match asm_line(all[i as int], i as int, m) {
                        Err(k) => Err::<Seq<u32>, AsmError>(AsmError { kind: k, line: i }),
                        Ok(w2) => match spec_pass2(all, i + 1, m) {
                            Ok(rest) => Ok::<Seq<u32>, AsmError>(seq![w2] + rest),
                            Err(e) => Err::<Seq<u32>, AsmError>(e),
                        },
                    });
                    if spec_pass2(all, i + 1, m) is Ok {
                        let rest = spec_pass2(all, i + 1, m)->Ok_0;
                        assert(out@ + rest =~= prev + (seq![w] + rest));
                    }
                }
            },
        }
        i = i + 1;
    }
    proof {
        assert(out@ + Seq::<u32>::empty() =~= out@);
    }
    Ok(out)
}

/// The whole assembler: pass one, then pass two.
pub open spec fn spec_assemble(lines: Seq<Seq<u8>>) -> Result<Seq<u32>, AsmError> {
    match spec_pass1(lines, 0, Map::empty(), 0) {
        Err(e) => Err(e),
        Ok(m) => spec_pass2(lines, 0, m),
    }
}

/// Assembles a program: one machine word per source line, or the first
/// failure with its line number.
pub fn assemble(lines: &Vec<Vec<u8>>) -> (r: Result<Vec<u32>, AsmError>)
    requires
        lines@.len() <= 0x3fff_ffff,
    ensures
        match r {
            Ok(words) => spec_assemble(byte_lines(lines@)) == Ok::<_, AsmError>(words@),
            Err(e) => spec_assemble(byte_lines(lines@)) == Err::<Seq<u32>, _>(e),
        },
{
    match get_labels(lines) {
        Err(e) => Err(e),
        Ok(tab) => write_instructions(lines, &tab),
    }
}

} // verus!
