use vstd::prelude::*;

verus! {

use vstd::std_specs::iter::IteratorSpec;

broadcast use vstd::string::group_string_axioms;

/// Why a text could not be encoded into Morse timing units.
#[derive(Debug, Clone, PartialEq, Eq, Structural)]
pub enum EncodeError {
    /// A `<` opened a prosign that never saw its closing `>`; carries the
    /// byte offset of the opening bracket.
    UnterminatedProsign(usize),
    /// A character (after uppercasing) that the Morse table does not know.
    UnknownSymbol(char),
}

/// The fixed Morse table: `false` is a dot (one tone unit), `true` is a
/// dash (three tone units). `None` for characters outside the table.
pub open spec fn morse_pattern(c: char) -> Option<Seq<bool>> {
    match c {
        'A' => Some(seq![false, true]),
        'B' => Some(seq![true, false, false, false]),
        'C' => Some(seq![true, false, true, false]),
        'D' => Some(seq![true, false, false]),
        'E' => Some(seq![false]),
        'F' => Some(seq![false, false, true, false]),
        'G' => Some(seq![true, true, false]),
        'H' => Some(seq![false, false, false, false]),
        'I' => Some(seq![false, false]),
        'J' => Some(seq![false, true, true, true]),
        'K' => Some(seq![true, false, true]),
        'L' => Some(seq![false, true, false, false]),
        'M' => Some(seq![true, true]),
        'N' => Some(seq![true, false]),
        'O' => Some(seq![true, true, true]),
        'P' => Some(seq![false, true, true, false]),
        'Q' => Some(seq![true, true, false, true]),
        'R' => Some(seq![false, true, false]),
        'S' => Some(seq![false, false, false]),
        'T' => Some(seq![true]),
        'U' => Some(seq![false, false, true]),
        'V' => Some(seq![false, false, false, true]),
        'W' => Some(seq![false, true, true]),
        'X' => Some(seq![true, false, false, true]),
        'Y' => Some(seq![true, false, true, true]),
        'Z' => Some(seq![true, true, false, false]),
        '0' => Some(seq![true, true, true, true, true]),
        '1' => Some(seq![false, true, true, true, true]),
        '2' => Some(seq![false, false, true, true, true]),
        '3' => Some(seq![false, false, false, true, true]),
        '4' => Some(seq![false, false, false, false, true]),
        '5' => Some(seq![false, false, false, false, false]),
        '6' => Some(seq![true, false, false, false, false]),
        '7' => Some(seq![true, true, false, false, false]),
        '8' => Some(seq![true, true, true, false, false]),
        '9' => Some(seq![true, true, true, true, false]),
        '.' => Some(seq![false, true, false, true, false, true]),
        ',' => Some(seq![true, true, false, false, true, true]),
        '?' => Some(seq![false, false, true, true, false, false]),
        '\'' => Some(seq![false, true, true, true, true, false]),
        '!' => Some(seq![true, false, true, false, true, true]),
        '/' => Some(seq![true, false, false, true, false]),
        '(' => Some(seq![true, false, true, true, false]),
        ')' => Some(seq![true, false, true, true, false, true]),
        '&' => Some(seq![false, true, false, false, false]),
        ':' => Some(seq![true, true, true, false, false, false]),
        ';' => Some(seq![true, false, true, false, true, false]),
        '=' => Some(seq![true, false, false, false, true]),
        '+' => Some(seq![false, true, false, true, false]),
        '-' => Some(seq![true, false, false, false, false, true]),
        '_' => Some(seq![false, false, true, true, false, true]),
        '"' => Some(seq![false, true, false, false, true, false]),
        '$' => Some(seq![false, false, false, true, false, false, true]),
        '@' => Some(seq![false, true, true, false, true, false]),
        _ => None,
    }
}

/// Executable Morse table, mark for mark the same as [`morse_pattern`].
fn morse_marks(c: char) -> (r: Option<Vec<bool>>)
    ensures
        match r {
            Some(v) => morse_pattern(c) == Some(v@),
            None => morse_pattern(c) is None,
        },
{
    match c {
        'A' => Some(vec![false, true]),
        'B' => Some(vec![true, false, false, false]),
        'C' => Some(vec![true, false, true, false]),
        'D' => Some(vec![true, false, false]),
        'E' => Some(vec![false]),
        'F' => Some(vec![false, false, true, false]),
        'G' => Some(vec![true, true, false]),
        'H' => Some(vec![false, false, false, false]),
        'I' => Some(vec![false, false]),
        'J' => Some(vec![false, true, true, true]),
        'K' => Some(vec![true, false, true]),
        'L' => Some(vec![false, true, false, false]),
        'M' => Some(vec![true, true]),
        'N' => Some(vec![true, false]),
        'O' => Some(vec![true, true, true]),
        'P' => Some(vec![false, true, true, false]),
        'Q' => Some(vec![true, true, false, true]),
        'R' => Some(vec![false, true, false]),
        'S' => Some(vec![false, false, false]),
        'T' => Some(vec![true]),
        'U' => Some(vec![false, false, true]),
        'V' => Some(vec![false, false, false, true]),
        'W' => Some(vec![false, true, true]),
        'X' => Some(vec![true, false, false, true]),
        'Y' => Some(vec![true, false, true, true]),
        'Z' => Some(vec![true, true, false, false]),
        '0' => Some(vec![true, true, true, true, true]),
        '1' => Some(vec![false, true, true, true, true]),
        '2' => Some(vec![false, false, true, true, true]),
        '3' => Some(vec![false, false, false, true, true]),
        '4' => Some(vec![false, false, false, false, true]),
        '5' => Some(vec![false, false, false, false, false]),
        '6' => Some(vec![true, false, false, false, false]),
        '7' => Some(vec![true, true, false, false, false]),
        '8' => Some(vec![true, true, true, false, false]),
        '9' => Some(vec![true, true, true, true, false]),
        '.' => Some(vec![false, true, false, true, false, true]),
        ',' => Some(vec![true, true, false, false, true, true]),
        '?' => Some(vec![false, false, true, true, false, false]),
        '\'' => Some(vec![false, true, true, true, true, false]),
        '!' => Some(vec![true, false, true, false, true, true]),
        '/' => Some(vec![true, false, false, true, false]),
        '(' => Some(vec![true, false, true, true, false]),
        ')' => Some(vec![true, false, true, true, false, true]),
        '&' => Some(vec![false, true, false, false, false]),
        ':' => Some(vec![true, true, true, false, false, false]),
        ';' => Some(vec![true, false, true, false, true, false]),
        '=' => Some(vec![true, false, false, false, true]),
        '+' => Some(vec![false, true, false, true, false]),
        '-' => Some(vec![true, false, false, false, false, true]),
        '_' => Some(vec![false, false, true, true, false, true]),
        '"' => Some(vec![false, true, false, false, true, false]),
        '$' => Some(vec![false, false, false, true, false, false, true]),
        '@' => Some(vec![false, true, true, false, true, false]),
        _ => None,
    }
}

/// A run of `n` equal timing units: `true` is one unit of tone, `false`
/// one unit of silence.
pub open spec fn run(value: bool, n: int) -> Seq<bool> {
    Seq::new(n as nat, |i: int| value)
}

/// Timing units of a single mark: one tone unit for a dot, three for a dash.
pub open spec fn mark_units(dash: bool) -> Seq<bool> {
    if dash {
        run(true, 3)
    } else {
        run(true, 1)
    }
}

/// Timing units of the first `n` marks of a symbol, with one silent unit
/// between consecutive marks and none after the last.
pub open spec fn units_prefix(marks: Seq<bool>, n: int) -> Seq<bool>
    decreases n,
{
    if n <= 0 {
        Seq::empty()
    } else if n == 1 {
        mark_units(marks[0])
    } else {
        units_prefix(marks, n - 1) + run(false, 1) + mark_units(marks[n - 1])
    }
}

/// Timing units of one whole symbol.
pub open spec fn symbol_units(marks: Seq<bool>) -> Seq<bool> {
    units_prefix(marks, marks.len() as int)
}

/// Uppercasing as the encoder sees it: ASCII lowercase letters map to
/// their uppercase form, everything else is unchanged.
pub open spec fn spec_upcase(c: char) -> char {
    if 'a' <= c && c <= 'z' {
        ((c as u8) - 32) as char
    } else {
        c
    }
}

fn upcase(c: char) -> (r: char)
    ensures
        r == spec_upcase(c),
{
    if 'a' <= c && c <= 'z' {
        ((c as u8) - 32) as char
    } else {
        c
    }
}

/// Whitespace as the encoder sees it.
pub open spec fn is_morse_whitespace(c: char) -> bool {
    c == ' ' || c == '\t' || c == '\n' || c == '\r'
}

/// How many bytes a character occupies in UTF-8.
pub open spec fn spec_char_width(c: char) -> int {
    vstd::utf8::encode_scalar(c as u32).len() as int
}

fn char_width(c: char) -> (r: usize)
    ensures
        r == spec_char_width(c),
        1 <= r <= 4,
{
    let v = c as u32;
    if v <= 0x7F {
        1
    } else if v <= 0x7FF {
        2
    } else if v <= 0xFFFF {
        3
    } else {
        4
    }
}

/// The byte offset at which character `i` of a text starts.
pub open spec fn spec_byte_offset(s: Seq<char>, i: int) -> int {
    vstd::utf8::encode_utf8(s.take(i)).len() as int
}

/// Encoding distributes over appending one character.
proof fn lemma_encode_utf8_push(s: Seq<char>, c: char)
    ensures
        vstd::utf8::encode_utf8(s.push(c)) == vstd::utf8::encode_utf8(s)
            + vstd::utf8::encode_scalar(c as u32),
    decreases s.len(),
{
    if s.len() == 0 {
        assert(s.push(c)[0] == c);
        assert(s.push(c).drop_first() =~= Seq::<char>::empty());
        assert(vstd::utf8::encode_utf8(Seq::<char>::empty()) =~= Seq::<u8>::empty());
        assert(vstd::utf8::encode_utf8(s.push(c)) =~= vstd::utf8::encode_scalar(c as u32));
        assert(vstd::utf8::encode_utf8(s) + vstd::utf8::encode_scalar(c as u32)
            =~= vstd::utf8::encode_scalar(c as u32));
    } else {
        assert(s.push(c)[0] == s[0]);
        assert(s.push(c).drop_first() =~= s.drop_first().push(c));
        lemma_encode_utf8_push(s.drop_first(), c);
        assert(vstd::utf8::encode_utf8(s.push(c)) =~= vstd::utf8::encode_utf8(s)
            + vstd::utf8::encode_scalar(c as u32));
    }
}

/// One character moves the byte offset forward by its width.
proof fn lemma_byte_offset_step(s: Seq<char>, i: int)
    requires
        0 <= i < s.len(),
    ensures
        spec_byte_offset(s, i + 1) == spec_byte_offset(s, i) + spec_char_width(s[i]),
{
    assert(s.take(i + 1) =~= s.take(i).push(s[i]));
    lemma_encode_utf8_push(s.take(i), s[i]);
}

/// Positions are reported modulo the machine word, so that the
/// specification stays total on sequences of any length.
pub open spec fn wrap_pos(i: int) -> usize {
    (i % (usize::MAX as int + 1)) as usize
}

/// The encoder state after some prefix of the input has been read.
#[verifier::ext_equal]
pub struct EncodeState {
    /// Timing units emitted so far.
    pub units: Seq<bool>,
    /// Whether a `<` is open.
    pub in_prosign: bool,
    /// Whether a symbol has been emitted since the last whitespace.
    pub last_was_symbol: bool,
    /// Whether the open prosign has already emitted a symbol.
    pub prosign_emitted: bool,
    /// Character position of the open `<`.
    pub prosign_start: usize,
}

pub open spec fn initial_state() -> EncodeState {
    EncodeState {
        units: Seq::empty(),
        in_prosign: false,
        last_was_symbol: false,
        prosign_emitted: false,
        prosign_start: 0,
    }
}

/// One step of the encoder on character `c`, which starts at byte
/// offset `off`.
///
/// Outside a prosign, three silent units separate successive symbols and
/// whitespace closes a word with seven; inside a prosign the enclosed
/// symbols are fused with a single silent unit between marks, and the
/// fused prosign is separated from a preceding symbol like any other.
pub open spec fn encode_step(st: EncodeState, c: char, off: int) -> Result<
    EncodeState,
    EncodeError,
> {
    if c == '<' {
        if st.in_prosign {
            Err(EncodeError::UnknownSymbol('<'))
        } else {
            Ok(
                EncodeState {
                    in_prosign: true,
                    prosign_emitted: false,
                    prosign_start: wrap_pos(off),
                    ..st
                },
            )
        }
    } else if c == '>' {
        if !st.in_prosign {
            Err(EncodeError::UnknownSymbol('>'))
        } else {
            Ok(EncodeState { in_prosign: false, ..st })
        }
    } else if is_morse_whitespace(c) {
        if st.in_prosign || !st.last_was_symbol {
            Ok(st)
        } else {
            Ok(EncodeState { units: st.units + run(false, 7), last_was_symbol: false, ..st })
        }
    } else {
        match morse_pattern(spec_upcase(c)) {
            None => Err(EncodeError::UnknownSymbol(c)),
            Some(p) => {
                let sep = if st.in_prosign && st.prosign_emitted {
                    run(false, 1)
                } else if st.last_was_symbol {
                    run(false, 3)
                } else {
                    Seq::empty()
                };
                Ok(
                    EncodeState {
                        units: st.units + sep + symbol_units(p),
                        last_was_symbol: true,
                        prosign_emitted: st.in_prosign,
                        ..st
                    },
                )
            },
        }
    }
}

/// The encoder run to completion from position `i` in state `st`.
pub open spec fn encode_from(s: Seq<char>, i: int, st: EncodeState) -> Result<
    Seq<bool>,
    EncodeError,
>
    decreases s.len() - i,
{
    if i < 0 || i >= s.len() {
        if st.in_prosign {
            Err(EncodeError::UnterminatedProsign(st.prosign_start))
        } else {
            Ok(st.units)
        }
    } else {
        match encode_step(st, s[i], spec_byte_offset(s, i)) {
            Ok(st2) => encode_from(s, i + 1, st2),
            Err(e) => Err(e),
        }
    }
}

/// What [`encode_units`] returns on a text.
pub open spec fn spec_encode(s: Seq<char>) -> Result<Seq<bool>, EncodeError> {
    encode_from(s, 0, initial_state())
}

fn push_units(bits: &mut Vec<bool>, value: bool, count: usize)
    ensures
        final(bits)@ == old(bits)@ + run(value, count as int),
{
    let mut j: usize = 0;
    while j < count
        invariant
            j <= count,
            bits@ =~= old(bits)@ + run(value, j as int),
        decreases count - j,
    {
        bits.push(value);
        j = j + 1;
        assert(bits@ =~= old(bits)@ + run(value, j as int));
    }
    assert(bits@ =~= old(bits)@ + run(value, count as int));
}

fn emit_symbol(bits: &mut Vec<bool>, marks: &Vec<bool>)
    ensures
        final(bits)@ == old(bits)@ + symbol_units(marks@),
{
    let mut k: usize = 0;
    while k < marks.len()
        invariant
            k <= marks.len(),
            bits@ == old(bits)@ + units_prefix(marks@, k as int),
        decreases marks.len() - k,
    {
        if k > 0 {
            push_units(bits, false, 1);
        }
        if marks[k] {
            push_units(bits, true, 3);
        } else {
            push_units(bits, true, 1);
        }
        k = k + 1;
        assert(bits@ =~= old(bits)@ + units_prefix(marks@, k as int));
    }
}

/// Encode a text into Morse timing units (`true` = one unit of tone,
/// `false` = one unit of silence), following the PARIS timing standard:
/// a dot is one tone unit, a dash three; marks of one symbol are one
/// silent unit apart, symbols three, words seven. `<...>` fuses the
/// enclosed symbols into one prosign with single-unit gaps. Fails with
/// [`EncodeError::UnknownSymbol`] on a character outside the table and
/// with [`EncodeError::UnterminatedProsign`] on a `<` that is never
/// closed; the reported position is the byte offset of the bracket.
pub fn encode_units(text: &str) -> (r: Result<Vec<bool>, EncodeError>)
    ensures
        match r {
            Ok(bits) => spec_encode(text@) == Ok::<Seq<bool>, EncodeError>(bits@),
            Err(e) => spec_encode(text@) == Err::<Seq<bool>, EncodeError>(e),
        },
{
    let ghost s = text@;
    let mut bits: Vec<bool> = Vec::new();
    let mut in_prosign = false;
    let mut last_was_symbol = false;
    let mut prosign_emitted = false;
    let mut prosign_start: usize = 0;
    let mut pos: usize = 0;
    let ghost mut idx: int = 0;
    let mut it = text.chars();

    proof {
        assert(it.remaining() =~= s.subrange(idx, s.len() as int));
    }

    loop
        invariant
            s == text@,
            0 <= idx <= s.len(),
            it.remaining() =~= s.subrange(idx, s.len() as int),
            it.obeys_prophetic_iter_laws(),
            pos == wrap_pos(spec_byte_offset(s, idx)),
            encode_from(
                s,
                idx,
                EncodeState {
                    units: bits@,
                    in_prosign: in_prosign,
                    last_was_symbol: last_was_symbol,
                    prosign_emitted: prosign_emitted,
                    prosign_start: prosign_start,
                },
            ) == spec_encode(s),
        ensures
            idx == s.len(),
            encode_from(
                s,
                idx,
                EncodeState {
                    units: bits@,
                    in_prosign: in_prosign,
                    last_was_symbol: last_was_symbol,
                    prosign_emitted: prosign_emitted,
                    prosign_start: prosign_start,
                },
            ) == spec_encode(s),
        decreases s.len() - idx,
    {
        let ghost st_before = EncodeState {
            units: bits@,
            in_prosign: in_prosign,
            last_was_symbol: last_was_symbol,
            prosign_emitted: prosign_emitted,
            prosign_start: prosign_start,
        };
        let c = match it.next() {
            Some(c) => c,
            None => {
                proof {
                    assert(s.subrange(idx, s.len() as int).len() == 0);
                }
                break;
            },
        };
        proof {
            assert(c == s.subrange(idx, s.len() as int)[0]);
            assert(c == s[idx]);
            assert(it.remaining() =~= s.subrange(idx + 1, s.len() as int));
        }

        if c == '<' {
            if in_prosign {
                proof {
                    assert(encode_step(st_before, c, spec_byte_offset(s, idx))
                        == Err::<EncodeState, EncodeError>(EncodeError::UnknownSymbol('<')));
                }
                return Err(EncodeError::UnknownSymbol('<'));
            }
            in_prosign = true;
            prosign_emitted = false;
            prosign_start = pos;
        } else if c == '>' {
            if !in_prosign {
                return Err(EncodeError::UnknownSymbol('>'));
            }
            in_prosign = false;
        } else if c == ' ' || c == '\t' || c == '\n' || c == '\r' {
            if !in_prosign && last_was_symbol {
                push_units(&mut bits, false, 7);
                last_was_symbol = false;
            }
        } else {
            let up = upcase(c);
            match morse_marks(up) {
                None => {
                    return Err(EncodeError::UnknownSymbol(c));
                },
                Some(marks) => {
                    if in_prosign && prosign_emitted {
                        push_units(&mut bits, false, 1);
                    } else if last_was_symbol {
                        push_units(&mut bits, false, 3);
                    }
                    emit_symbol(&mut bits, &marks);
                    last_was_symbol = true;
                    prosign_emitted = in_prosign;
                },
            }
        }

        let width = char_width(c);
        pos = pos.wrapping_add(width);
        proof {
            lemma_byte_offset_step(s, idx);
            lemma_wrap_step(spec_byte_offset(s, idx), width as int);
            let st_after = EncodeState {
                units: bits@,
                in_prosign: in_prosign,
                last_was_symbol: last_was_symbol,
                prosign_emitted: prosign_emitted,
                prosign_start: prosign_start,
            };
            assert(encode_step(st_before, c, spec_byte_offset(s, idx)) matches Ok(st2) && st_after =~= st2);
            idx = idx + 1;
        }
    }

    if in_prosign {
        return Err(EncodeError::UnterminatedProsign(prosign_start));
    }
    Ok(bits)
}

proof fn lemma_wrap_step(i: int, w: int)
    requires
        i >= 0,
        0 <= w < usize::MAX,
    ensures
        wrap_pos(i + w) == (wrap_pos(i) + w) % (usize::MAX as int + 1),
{
    let m = usize::MAX as int + 1;
    vstd::arithmetic::div_mod::lemma_add_mod_noop(i, w, m);
    assert(w % m == w) by {
        vstd::arithmetic::div_mod::lemma_small_mod(w as nat, m as nat);
    }
}



/// A character the Morse table knows is never a bracket or whitespace.
proof fn lemma_table_char_is_plain(c: char)
    requires
        morse_pattern(spec_upcase(c)) is Some,
    ensures
        c != '<' && c != '>' && !is_morse_whitespace(c),
{
    if c == '<' || c == '>' || is_morse_whitespace(c) {
        assert(morse_pattern(spec_upcase(c)) is None);
    }
}

/// Law: a text of one single symbol from the table encodes to exactly that
/// symbol's timing units: each dot one tone unit, each dash three, one
/// silent unit between the marks, nothing before or after.
pub proof fn lemma_encode_single_symbol(c: char)
    requires
        morse_pattern(spec_upcase(c)) is Some,
    ensures
        spec_encode(seq![c]) == Ok::<Seq<bool>, EncodeError>(
            symbol_units(morse_pattern(spec_upcase(c)).unwrap()),
        ),
{
    lemma_table_char_is_plain(c);
    let s = seq![c];
    let p = morse_pattern(spec_upcase(c)).unwrap();
    let st0 = initial_state();
    assert(s[0] == c);
    let st1 = encode_step(st0, c, 0).unwrap();
    assert(encode_step(st0, c, 0) is Ok && st1.units =~= symbol_units(p) && !st1.in_prosign);
    assert(encode_from(s, 1, st1) == Ok::<Seq<bool>, EncodeError>(st1.units));
    assert(spec_encode(s) == encode_from(s, 1, st1));
}

/// Law: a prosign of two table symbols encodes to the two symbols' units
/// fused with a single silent unit between them, with no three-unit
/// letter gap inside the brackets.
pub proof fn lemma_encode_prosign_pair(c1: char, c2: char)
    requires
        morse_pattern(spec_upcase(c1)) is Some,
        morse_pattern(spec_upcase(c2)) is Some,
    ensures
        spec_encode(seq!['<', c1, c2, '>']) == Ok::<Seq<bool>, EncodeError>(
            symbol_units(morse_pattern(spec_upcase(c1)).unwrap()) + run(false, 1)
                + symbol_units(morse_pattern(spec_upcase(c2)).unwrap()),
        ),
{
    lemma_table_char_is_plain(c1);
    lemma_table_char_is_plain(c2);
    let s = seq!['<', c1, c2, '>'];
    let p1 = morse_pattern(spec_upcase(c1)).unwrap();
    let p2 = morse_pattern(spec_upcase(c2)).unwrap();
    let st0 = initial_state();
    assert(s[0] == '<' && s[1] == c1 && s[2] == c2 && s[3] == '>');
    let st1 = encode_step(st0, '<', 0).unwrap();
    assert(encode_step(st0, '<', 0) is Ok);
    let st2 = encode_step(st1, c1, 1).unwrap();
    assert(encode_step(st1, c1, 1) is Ok && st2.units =~= symbol_units(p1));
    let st3 = encode_step(st2, c2, 2).unwrap();
    assert(encode_step(st2, c2, 2) is Ok && st3.units =~= symbol_units(p1) + run(false, 1)
        + symbol_units(p2));
    let st4 = encode_step(st3, '>', 3).unwrap();
    assert(encode_step(st3, '>', 3) is Ok && !st4.in_prosign && st4.units == st3.units);
    assert(encode_from(s, 4, st4) == Ok::<Seq<bool>, EncodeError>(st4.units));
    assert(encode_from(s, 3, st3) == encode_from(s, 4, st4));
    assert(encode_from(s, 2, st2) == encode_from(s, 3, st3));
    assert(encode_from(s, 1, st1) == encode_from(s, 2, st2));
    assert(spec_encode(s) == encode_from(s, 1, st1));
}

/// Law: a text of one character that the table does not know (and that is
/// not a bracket and not whitespace) fails with `UnknownSymbol` of exactly
/// that character.
pub proof fn lemma_encode_unknown_symbol(c: char)
    requires
        c != '<',
        c != '>',
        !is_morse_whitespace(c),
        morse_pattern(spec_upcase(c)) is None,
    ensures
        spec_encode(seq![c]) == Err::<Seq<bool>, EncodeError>(EncodeError::UnknownSymbol(c)),
{
    let s = seq![c];
    assert(s[0] == c);
}

/// Law: a prosign opened at the start of the text and never closed fails
/// with `UnterminatedProsign` carrying position zero, whatever table
/// symbols follow the bracket.
pub proof fn lemma_encode_unterminated_prosign(tail: Seq<char>)
    requires
        forall|i: int|
            0 <= i < tail.len() ==> #[trigger] morse_pattern(spec_upcase(tail[i])) is Some,
    ensures
        spec_encode(seq!['<'] + tail) matches Err(e) && e == EncodeError::UnterminatedProsign(
            0usize,
        ),
{
    let s = seq!['<'] + tail;
    let st0 = initial_state();
    assert(s[0] == '<');
    let st1 = encode_step(st0, '<', 0).unwrap();
    assert(encode_step(st0, '<', 0) is Ok && st1.in_prosign && st1.prosign_start == 0usize);
    assert(spec_encode(s) == encode_from(s, 1, st1));
    lemma_unterminated_from(s, 1, st1);
}

/// Inside an open prosign, reading only table symbols to the end of the
/// text leaves the prosign open, so encoding fails with the opening
/// bracket's position.
proof fn lemma_unterminated_from(s: Seq<char>, i: int, st: EncodeState)
    requires
        st.in_prosign,
        0 <= i <= s.len(),
        forall|j: int| i <= j < s.len() ==> #[trigger] morse_pattern(spec_upcase(s[j])) is Some,
    ensures
        encode_from(s, i, st) matches Err(e) && e == EncodeError::UnterminatedProsign(
            st.prosign_start,
        ),
    decreases s.len() - i,
{
    if i < s.len() {
        let c = s[i];
        lemma_table_char_is_plain(c);
        let st2 = encode_step(st, c, i).unwrap();
        assert(encode_step(st, c, i) is Ok && st2.in_prosign && st2.prosign_start
            == st.prosign_start);
        lemma_unterminated_from(s, i + 1, st2);
    }
}


} // verus!
