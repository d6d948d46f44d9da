//! The statement parser: reads tokens (comments skipped), parameter lists and statements,
//! and lists the commands a scene file gives.
use vstd::prelude::*;
use vstd::string::*;
use vstd::utf8::*;

use super::params::{add_param, param_added, ItemView, ParamListItem};
use super::{
    dequote_string, is_quoted_string, lemma_lex_bounds, lex, lex_error, quoted, unquoted, Error,
    ErrorView, Halt, Lexed, Tokenizer,
};
use crate::paramset::{lemma_strs_push, strs, ParamEntry, ParamSet};
use crate::text::{float_literal, is_float_literal, str_eq};

verus! {

broadcast use vstd::utf8::encode_utf8_decode_utf8;

/// What the parser's token reader reads from a position.
pub enum Step {
    /// Only blanks and comments are left.
    Eof,
    /// The token `text`, ending at `end`.
    Tok { text: Seq<char>, end: int },
    /// Reading failed with `error`; reading stopped at `end`.
    Fail { error: ErrorView, end: int },
    /// A quoted string with a backslash escape.
    Escaped,
}

/// What the parser's token reader reads from `pos`: the next token that is not a
/// comment, decoded from UTF-8.
pub open spec fn token_step(data: Seq<u8>, pos: int) -> Step
    decreases data.len() - pos,
{
    match lex(data, pos) {
        Lexed::End => Step::Eof,
        Lexed::Escaped => Step::Escaped,
        Lexed::Failure { error, end } => Step::Fail { error: lex_error(error)@, end },
        Lexed::Token { start, end } => {
            let bytes = data.subrange(start, end);
            if !valid_utf8(bytes) {
                Step::Fail { error: ErrorView::StrError, end }
            } else if data[start] == 0x23 {
                if pos < end <= data.len() {
                    token_step(data, end)
                } else {
                    Step::Eof
                }
            } else {
                Step::Tok { text: decode_utf8(bytes), end }
            }
        },
    }
}

/// A token lies after the read position and inside the data.
pub proof fn lemma_token_step_bounds(data: Seq<u8>, pos: int)
    requires
        0 <= pos <= data.len(),
    ensures
        match token_step(data, pos) {
            Step::Tok { text, end } => pos < end <= data.len(),
            Step::Fail { error, end } => pos < end <= data.len(),
            _ => true,
        },
    decreases data.len() - pos,
{
    lemma_lex_bounds(data, pos);
    match lex(data, pos) {
        Lexed::Token { start, end } => {
            if valid_utf8(data.subrange(start, end)) && data[start] == 0x23 {
                lemma_token_step_bounds(data, end);
            }
        },
        _ => {},
    }
}

/// How a parsing stage ends.
pub enum Outcome<T> {
    /// It produced a value.
    Done(T),
    /// It failed with an error.
    Failed(ErrorView),
    /// It met a quoted string with a backslash escape, which the tokenizer does not decode.
    Escaped,
}

/// The parameter `item` after reading the value token `v`: quoted strings and numbers
/// cannot be mixed, and a number must be a valid literal.
pub open spec fn value_added(item: ItemView, v: Seq<char>) -> Outcome<ItemView> {
    if quoted(v) {
        if item.nums.len() > 0 {
            Outcome::Failed(ErrorView::MixedParameters)
        } else {
            Outcome::Done(ItemView { strs: item.strs.push(v), ..item })
        }
    } else if item.strs.len() > 0 {
        Outcome::Failed(ErrorView::MixedParameters)
    } else if !float_literal(v) {
        Outcome::Failed(ErrorView::NumberErr(v))
    } else {
        Outcome::Done(ItemView { nums: item.nums.push(v), ..item })
    }
}

/// Reading the values of a bracketed list from `pos` into `item`, up to the closing
/// bracket; with the position after it.
pub open spec fn list_from(data: Seq<u8>, pos: int, item: ItemView) -> (Outcome<ItemView>, int)
    decreases data.len() - pos,
{
    match token_step(data, pos) {
        Step::Eof => (Outcome::Failed(ErrorView::EOF), data.len() as int),
        Step::Fail { error, end } => (Outcome::Failed(error), end),
        Step::Escaped => (Outcome::Escaped, pos),
        Step::Tok { text, end } => if text == "]"@ {
            (Outcome::Done(item), end)
        } else {
            match value_added(item, text) {
                Outcome::Done(next) => if pos < end <= data.len() {
                    list_from(data, end, next)
                } else {
                    (Outcome::Escaped, pos)
                },
                Outcome::Failed(e) => (Outcome::Failed(e), end),
                Outcome::Escaped => (Outcome::Escaped, end),
            }
        },
    }
}

/// Reading the values of the parameter declared by `decl`, whose first value token is
/// read from `pos`: a bracketed list or a single value.
pub open spec fn values_from(data: Seq<u8>, pos: int, decl: Seq<char>) -> (Outcome<ItemView>, int) {
    let item = ItemView { name: unquoted(decl), nums: Seq::empty(), strs: Seq::empty() };
    match token_step(data, pos) {
        Step::Eof => (Outcome::Failed(ErrorView::EOF), data.len() as int),
        Step::Fail { error, end } => (Outcome::Failed(error), end),
        Step::Escaped => (Outcome::Escaped, pos),
        Step::Tok { text, end } => if text == "["@ {
            list_from(data, end, item)
        } else {
            (value_added(item, text), end)
        },
    }
}

/// Reading a parameter list from `pos` into the parameters `m`: quoted declarations,
/// each followed by its values, up to the first token that is not quoted (which is left
/// for the next statement) or the end of the data; with the position where reading
/// stopped.
pub open spec fn params_from(data: Seq<u8>, pos: int, m: Map<Seq<char>, ParamEntry>) -> (
    Outcome<Map<Seq<char>, ParamEntry>>,
    int,
)
    decreases data.len() - pos,
{
    match token_step(data, pos) {
        Step::Eof => (Outcome::Done(m), data.len() as int),
        Step::Fail { error, end } => (Outcome::Failed(error), end),
        Step::Escaped => (Outcome::Escaped, pos),
        Step::Tok { text, end } => if !quoted(text) {
            (Outcome::Done(m), pos)
        } else {
            let (r, after) = values_from(data, end, text);
            match r {
                Outcome::Done(item) => if pos < after <= data.len() {
                    params_from(data, after, param_added(m, item))
                } else {
                    (Outcome::Escaped, pos)
                },
                Outcome::Failed(e) => (Outcome::Failed(e), after),
                Outcome::Escaped => (Outcome::Escaped, after),
            }
        },
    }
}

/// Reading the quoted name and the parameter list of a statement from `pos`.
pub open spec fn entry_from(data: Seq<u8>, pos: int) -> (
    Outcome<(Seq<char>, Map<Seq<char>, ParamEntry>)>,
    int,
) {
    match token_step(data, pos) {
        Step::Eof => (Outcome::Failed(ErrorView::EOF), data.len() as int),
        Step::Fail { error, end } => (Outcome::Failed(error), end),
        Step::Escaped => (Outcome::Escaped, pos),
        Step::Tok { text, end } => if !quoted(text) {
            (Outcome::Failed(ErrorView::Unquoted(text)), end)
        } else {
            let (r, after) = params_from(data, end, Map::empty());
            match r {
                Outcome::Done(m) => (Outcome::Done((unquoted(text), m)), after),
                Outcome::Failed(e) => (Outcome::Failed(e), after),
                Outcome::Escaped => (Outcome::Escaped, after),
            }
        },
    }
}

/// Reading `n` number literals from `pos`.
pub open spec fn numbers_from(data: Seq<u8>, pos: int, n: nat) -> (Outcome<Seq<Seq<char>>>, int)
    decreases n,
{
    if n == 0 {
        (Outcome::Done(Seq::empty()), pos)
    } else {
        match token_step(data, pos) {
            Step::Eof => (Outcome::Failed(ErrorView::EOF), data.len() as int),
            Step::Fail { error, end } => (Outcome::Failed(error), end),
            Step::Escaped => (Outcome::Escaped, pos),
            Step::Tok { text, end } => if !float_literal(text) {
                (Outcome::Failed(ErrorView::NumberErr(text)), end)
            } else {
                let (r, after) = numbers_from(data, end, (n - 1) as nat);
                match r {
                    Outcome::Done(rest) => (Outcome::Done(seq![text] + rest), after),
                    Outcome::Failed(e) => (Outcome::Failed(e), after),
                    Outcome::Escaped => (Outcome::Escaped, after),
                }
            },
        }
    }
}

/// `r` with the numbers `p` put in front of the numbers it read.
pub open spec fn with_prefix(p: Seq<Seq<char>>, r: (Outcome<Seq<Seq<char>>>, int)) -> (
    Outcome<Seq<Seq<char>>>,
    int,
) {
    match r.0 {
        Outcome::Done(ns) => (Outcome::Done(p + ns), r.1),
        Outcome::Failed(e) => (Outcome::Failed(e), r.1),
        Outcome::Escaped => (Outcome::Escaped, r.1),
    }
}


/// Reading `n` numbers gives `n` numbers.
pub proof fn lemma_numbers_len(data: Seq<u8>, pos: int, n: nat)
    ensures
        numbers_from(data, pos, n).0 matches Outcome::Done(ns) ==> ns.len() == n,
    decreases n,
{
    if n > 0 {
        match token_step(data, pos) {
            Step::Tok { text, end } => lemma_numbers_len(data, end, (n - 1) as nat),
            _ => {},
        }
    }
}


proof fn lemma_list_from_bounds(data: Seq<u8>, pos: int, item: ItemView)
    requires
        0 <= pos <= data.len(),
    ensures
        list_from(data, pos, item).0 is Done ==> pos < list_from(data, pos, item).1 <= data.len(),
    decreases data.len() - pos,
{
    lemma_token_step_bounds(data, pos);
    match token_step(data, pos) {
        Step::Tok { text, end } => {
            if text != "]"@ {
                match value_added(item, text) {
                    Outcome::Done(next) => lemma_list_from_bounds(data, end, next),
                    _ => {},
                }
            }
        },
        _ => {},
    }
}

proof fn lemma_values_from_bounds(data: Seq<u8>, pos: int, decl: Seq<char>)
    requires
        0 <= pos <= data.len(),
    ensures
        values_from(data, pos, decl).0 is Done ==> pos < values_from(data, pos, decl).1 <= data.len(),
{
    lemma_token_step_bounds(data, pos);
    match token_step(data, pos) {
        Step::Tok { text, end } => {
            if text == "["@ {
                lemma_list_from_bounds(
                    data,
                    end,
                    ItemView { name: unquoted(decl), nums: Seq::empty(), strs: Seq::empty() },
                );
            }
        },
        _ => {},
    }
}

proof fn lemma_params_from_bounds(data: Seq<u8>, pos: int, m: Map<Seq<char>, ParamEntry>)
    requires
        0 <= pos <= data.len(),
    ensures
        params_from(data, pos, m).0 is Done ==> pos <= params_from(data, pos, m).1 <= data.len(),
    decreases data.len() - pos,
{
    lemma_token_step_bounds(data, pos);
    match token_step(data, pos) {
        Step::Tok { text, end } => {
            if quoted(text) {
                lemma_values_from_bounds(data, end, text);
                let (r, after) = values_from(data, end, text);
                match r {
                    Outcome::Done(item) => {
                        if pos < after <= data.len() {
                            lemma_params_from_bounds(data, after, param_added(m, item));
                        }
                    },
                    _ => {},
                }
            }
        },
        _ => {},
    }
}

proof fn lemma_numbers_from_bounds(data: Seq<u8>, pos: int, n: nat)
    requires
        0 <= pos <= data.len(),
    ensures
        numbers_from(data, pos, n).0 is Done ==> pos <= numbers_from(data, pos, n).1 <= data.len(),
    decreases n,
{
    if n > 0 {
        lemma_token_step_bounds(data, pos);
        match token_step(data, pos) {
            Step::Tok { text, end } => lemma_numbers_from_bounds(data, end, (n - 1) as nat),
            _ => {},
        }
    }
}

proof fn lemma_statement_from_bounds(data: Seq<u8>, tok: Seq<char>, end: int)
    requires
        0 <= end <= data.len(),
    ensures
        statement_from(data, tok, end).0 is Done ==> end <= statement_from(data, tok, end).1
            <= data.len(),
{
    lemma_token_step_bounds(data, end);
    match token_step(data, end) {
        Step::Tok { text, end: e2 } => lemma_params_from_bounds(data, e2, Map::empty()),
        _ => {},
    }
    lemma_numbers_from_bounds(data, end, 9);
    lemma_numbers_from_bounds(data, end, 3);
}


/// A scene statement that the parser accepts, with its arguments.
pub enum Command {
    /// `Accelerator "name" params`.
    Accelerator { name: String, params: ParamSet },
    /// `Film "name" params`.
    Film { name: String, params: ParamSet },
    /// `Sampler "name" params`.
    Sampler { name: String, params: ParamSet },
    /// `AttributeBegin`.
    AttributeBegin,
    /// `AttributeEnd`.
    AttributeEnd,
    /// `LookAt` with the eye position, the point looked at and the up direction, as
    /// number literals.
    LookAt { eye: [String; 3], look: [String; 3], up: [String; 3] },
    /// `Scale` with the three factors, as number literals.
    Scale([String; 3]),
}

/// The abstract contents of a `Command`.
pub enum CommandView {
    Accelerator { name: Seq<char>, params: Map<Seq<char>, ParamEntry> },
    Film { name: Seq<char>, params: Map<Seq<char>, ParamEntry> },
    Sampler { name: Seq<char>, params: Map<Seq<char>, ParamEntry> },
    AttributeBegin,
    AttributeEnd,
    /// The nine numbers: eye, then look, then up.
    LookAt(Seq<Seq<char>>),
    /// The three factors.
    Scale(Seq<Seq<char>>),
}

impl View for Command {
    type V = CommandView;

    open spec fn view(&self) -> CommandView {
        match self {
            Command::Accelerator { name, params } => CommandView::Accelerator {
                name: name@,
                params: params@,
            },
            Command::Film { name, params } => CommandView::Film { name: name@, params: params@ },
            Command::Sampler { name, params } => CommandView::Sampler {
                name: name@,
                params: params@,
            },
            Command::AttributeBegin => CommandView::AttributeBegin,
            Command::AttributeEnd => CommandView::AttributeEnd,
            Command::LookAt { eye, look, up } => CommandView::LookAt(
                strs(eye@) + strs(look@) + strs(up@),
            ),
            Command::Scale(v) => CommandView::Scale(strs(v@)),
        }
    }
}

/// The statement keywords that the parser recognises but does not handle.
pub open spec fn unhandled_keyword(tok: Seq<char>) -> bool {
    ||| tok == "ActiveTransform"@
    ||| tok == "AreaLightSource"@
    ||| tok == "Camera"@
    ||| tok == "ConcatTransform"@
    ||| tok == "CoordinateSystem"@
    ||| tok == "CoordSysTransform"@
    ||| tok == "Identity"@
    ||| tok == "Include"@
    ||| tok == "Integrator"@
    ||| tok == "LightSource"@
    ||| tok == "MakeNamedMaterial"@
    ||| tok == "MakeNamedMedium"@
    ||| tok == "Material"@
    ||| tok == "MediumInterface"@
    ||| tok == "NamedMaterial"@
    ||| tok == "ObjectBegin"@
    ||| tok == "ObjectEnd"@
    ||| tok == "ObjectInstance"@
    ||| tok == "PixelFilter"@
    ||| tok == "ReverseOrientation"@
    ||| tok == "Rotate"@
    ||| tok == "Shape"@
    ||| tok == "Texture"@
    ||| tok == "Transform"@
    ||| tok == "TransformBegin"@
    ||| tok == "TransformEnd"@
    ||| tok == "TransformTimes"@
    ||| tok == "Translate"@
    ||| tok == "WorldBegin"@
    ||| tok == "WorldEnd"@
}

/// The command given by the statement keyword `tok` with the name and parameters read
/// after it.
pub open spec fn entry_command(tok: Seq<char>, name: Seq<char>, m: Map<Seq<char>, ParamEntry>) -> CommandView {
    if tok == "Accelerator"@ {
        CommandView::Accelerator { name, params: m }
    } else if tok == "Film"@ {
        CommandView::Film { name, params: m }
    } else {
        CommandView::Sampler { name, params: m }
    }
}

/// The command read by the statement whose keyword `tok` ends at `end`, with the position
/// after the statement.
pub open spec fn statement_from(data: Seq<u8>, tok: Seq<char>, end: int) -> (Outcome<CommandView>, int) {
    if tok == "Accelerator"@ || tok == "Film"@ || tok == "Sampler"@ {
        match entry_from(data, end) {
            (Outcome::Done((name, m)), after) => (Outcome::Done(entry_command(tok, name, m)), after),
            (Outcome::Failed(e), after) => (Outcome::Failed(e), after),
            (Outcome::Escaped, after) => (Outcome::Escaped, after),
        }
    } else if tok == "AttributeBegin"@ {
        (Outcome::Done(CommandView::AttributeBegin), end)
    } else if tok == "AttributeEnd"@ {
        (Outcome::Done(CommandView::AttributeEnd), end)
    } else if tok == "LookAt"@ || tok == "Scale"@ {
        let count: nat = if tok == "LookAt"@ { 9 } else { 3 };
        match numbers_from(data, end, count) {
            (Outcome::Done(ns), after) => (Outcome::Done(
                if tok == "LookAt"@ { CommandView::LookAt(ns) } else { CommandView::Scale(ns) },
            ), after),
            (Outcome::Failed(e), after) => (Outcome::Failed(e), after),
            (Outcome::Escaped, after) => (Outcome::Escaped, after),
        }
    } else if unhandled_keyword(tok) {
        (Outcome::Failed(ErrorView::NotImplemented(tok)), end)
    } else {
        (Outcome::Failed(ErrorView::Syntax(tok)), end)
    }
}

/// The text of the `i`-th token (counting from 0) that the parser's token reader reads from
/// `pos`, if reading gets that far.
pub open spec fn nth_token(data: Seq<u8>, pos: int, i: nat) -> Option<Seq<char>>
    decreases i,
{
    match token_step(data, pos) {
        Step::Tok { text, end } => if i == 0 {
            Some(text)
        } else {
            nth_token(data, end, (i - 1) as nat)
        },
        _ => None,
    }
}

/// Reading `n` numbers gives the next `n` tokens, each of them a number literal, in the
/// order they are written.
pub proof fn law_numbers_in_order(data: Seq<u8>, pos: int, n: nat)
    ensures
        numbers_from(data, pos, n).0 matches Outcome::Done(ns) ==> {
            &&& ns.len() == n
            &&& forall|i: int|
                0 <= i < n ==> nth_token(data, pos, i as nat) == Some(#[trigger] ns[i]) && float_literal(
                    ns[i],
                )
        },
    decreases n,
{
    if n > 0 {
        match token_step(data, pos) {
            Step::Tok { text, end } => {
                law_numbers_in_order(data, end, (n - 1) as nat);
                if let Outcome::Done(ns) = numbers_from(data, pos, n).0 {
                    let rest = numbers_from(data, end, (n - 1) as nat).0->Done_0;
                    assert(ns == seq![text] + rest);
                    assert forall|i: int| 0 <= i < n implies nth_token(data, pos, i as nat) == Some(
                        #[trigger] ns[i],
                    ) && float_literal(ns[i]) by {
                        if i > 0 {
                            assert(ns[i] == rest[i - 1]);
                            assert(nth_token(data, pos, i as nat) == nth_token(data, end, (i - 1) as nat));
                        }
                    }
                }
            },
            _ => {},
        }
    }
}

/// The motion statements keep the numbers in the order written: a `Scale` statement gives
/// the next three number tokens as its x, y and z factors, and a `LookAt` statement the next
/// nine as eye, look and up, in that order.
pub proof fn law_motion_numbers_in_order(data: Seq<u8>, end: int)
    ensures
        statement_from(data, "Scale"@, end).0 matches Outcome::Done(c) ==> (c matches CommandView::Scale(ns)
            && ns.len() == 3 && forall|i: int| 0 <= i < 3 ==> nth_token(data, end, i as nat) == Some(#[trigger] ns[i])),
        statement_from(data, "LookAt"@, end).0 matches Outcome::Done(c) ==> (c matches CommandView::LookAt(ns)
            && ns.len() == 9 && forall|i: int| 0 <= i < 9 ==> nth_token(data, end, i as nat) == Some(#[trigger] ns[i])),
{
    reveal_strlit("Scale");
    reveal_strlit("LookAt");
    reveal_strlit("Accelerator");
    reveal_strlit("Film");
    reveal_strlit("Sampler");
    reveal_strlit("AttributeBegin");
    reveal_strlit("AttributeEnd");
    assert("Scale"@.len() == 5 && "Film"@.len() == 4 && "Sampler"@.len() == 7);
    assert("Accelerator"@.len() == 11 && "LookAt"@.len() == 6);
    assert("AttributeBegin"@.len() == 14 && "AttributeEnd"@.len() == 12);
    assert("Scale"@ != "Accelerator"@ && "Scale"@ != "Film"@ && "Scale"@ != "Sampler"@);
    assert("Scale"@ != "AttributeBegin"@ && "Scale"@ != "AttributeEnd"@ && "Scale"@ != "LookAt"@);
    assert("LookAt"@ != "Accelerator"@ && "LookAt"@ != "Film"@ && "LookAt"@ != "Sampler"@);
    assert("LookAt"@ != "AttributeBegin"@ && "LookAt"@ != "AttributeEnd"@);
    law_numbers_in_order(data, end, 3);
    law_numbers_in_order(data, end, 9);
    assert(statement_from(data, "Scale"@, end).0 is Done ==> numbers_from(data, end, 3).0 is Done);
    if let Outcome::Done(ns) = numbers_from(data, end, 3).0 {
        assert(statement_from(data, "Scale"@, end).0 == Outcome::Done(CommandView::Scale(ns)));
    }
    if let Outcome::Done(ns) = numbers_from(data, end, 9).0 {
        assert(statement_from(data, "LookAt"@, end).0 == Outcome::Done(CommandView::LookAt(ns)));
    }
}

/// The commands read by the statements from `pos` up to the end of the data or the first
/// error, and how reading ended.
pub open spec fn parse_from(data: Seq<u8>, pos: int) -> (Seq<CommandView>, Outcome<()>)
    decreases data.len() - pos,
{
    match token_step(data, pos) {
        Step::Eof => (Seq::empty(), Outcome::Done(())),
        Step::Fail { error, end } => (Seq::empty(), Outcome::Failed(error)),
        Step::Escaped => (Seq::empty(), Outcome::Escaped),
        Step::Tok { text, end } => match statement_from(data, text, end) {
            (Outcome::Done(c), after) => if pos < after <= data.len() {
                let rest = parse_from(data, after);
                (seq![c] + rest.0, rest.1)
            } else {
                (Seq::empty(), Outcome::Escaped)
            },
            (Outcome::Failed(e), after) => (Seq::empty(), Outcome::Failed(e)),
            (Outcome::Escaped, after) => (Seq::empty(), Outcome::Escaped),
        },
    }
}

/// The commands of the scene file `data`, and how reading it ended.
pub open spec fn scene(data: Seq<u8>) -> (Seq<CommandView>, Outcome<()>) {
    parse_from(data, 0)
}

/// Adds the value token `val` to the parameter being read.
fn add_val<'a>(item: &mut ParamListItem<'a>, val: &'a str) -> (r: Result<(), Error>)
    ensures
        match value_added(old(item)@, val@) {
            Outcome::Done(next) => r is Ok && final(item)@ == next,
            Outcome::Failed(e) => r matches Err(err) && err@ == e,
            Outcome::Escaped => false,
        },
{
    if is_quoted_string(val) {
        if item.double_values.len() > 0 {
            return Err(Error::MixedParameters);
        }
        let ghost before = item.string_values@;
        item.string_values.push(val);
        proof {
            assert(item.string_values@.map_values(|s: &'a str| s@) =~= before.map_values(
                |s: &'a str| s@,
            ).push(val@));
        }
    } else {
        if item.string_values.len() > 0 {
            return Err(Error::MixedParameters);
        }
        if !is_float_literal(val) {
            return Err(Error::NumberErr(val.to_owned()));
        }
        let ghost before = item.double_values@;
        let owned = val.to_owned();
        item.double_values.push(owned);
        proof {
            lemma_strs_push(before, owned);
        }
    }
    Ok(())
}

/// Whether `tok` is a statement keyword that the parser recognises but does not handle.
fn is_unhandled_keyword(tok: &str) -> (r: bool)
    ensures
        r == unhandled_keyword(tok@),
{
    str_eq(tok, "ActiveTransform") || str_eq(tok, "AreaLightSource") || str_eq(tok, "Camera") || str_eq(tok, "ConcatTransform") || str_eq(tok, "CoordinateSystem") || str_eq(tok, "CoordSysTransform") || str_eq(tok, "Identity") || str_eq(tok, "Include") || str_eq(tok, "Integrator") || str_eq(tok, "LightSource") || str_eq(tok, "MakeNamedMaterial") || str_eq(tok, "MakeNamedMedium") || str_eq(tok, "Material") || str_eq(tok, "MediumInterface") || str_eq(tok, "NamedMaterial") || str_eq(tok, "ObjectBegin") || str_eq(tok, "ObjectEnd") || str_eq(tok, "ObjectInstance") || str_eq(tok, "PixelFilter") || str_eq(tok, "ReverseOrientation") || str_eq(tok, "Rotate") || str_eq(tok, "Shape") || str_eq(tok, "Texture") || str_eq(tok, "Transform") || str_eq(tok, "TransformBegin") || str_eq(tok, "TransformEnd") || str_eq(tok, "TransformTimes") || str_eq(tok, "Translate") || str_eq(tok, "WorldBegin") || str_eq(tok, "WorldEnd")
}

/// Three copies of consecutive strings of `v`, from `at`.
fn triple_at(v: &Vec<String>, at: usize) -> (r: [String; 3])
    requires
        at + 3 <= v@.len(),
    ensures
        strs(r@) == strs(v@).subrange(at as int, at + 3),
{
    let len = v.len();
    let r = [v[at].clone(), v[at + 1].clone(), v[at + 2].clone()];
    proof {
        assert(strs(r@) =~= strs(v@).subrange(at as int, at + 3));
    }
    r
}

/// Whether the token reader must find a token: at the end of the data it then reports
/// `EOF` rather than nothing.
#[derive(PartialEq, Eq, Structural)]
enum Token {
    Optional,
    Required,
}

/// The statement parser's state: the files being read, and a token that was read and
/// handed back.
struct Parser<'a> {
    file_stack: Vec<Tokenizer<'a>>,
    unget_token: Option<&'a str>,
    /// The scene file.
    data: Ghost<Seq<u8>>,
    /// Where the handed-back token was read from.
    resume: Ghost<int>,
}

impl<'a> Parser<'a> {
    /// Where the open file is being read; the end once no file is open.
    spec fn cur(&self) -> int {
        if self.file_stack@.len() == 0 {
            self.data@.len() as int
        } else {
            self.file_stack@[0].pos()
        }
    }

    /// Where the next token will be read from.
    spec fn at(&self) -> int {
        if self.unget_token is Some {
            self.resume@
        } else {
            self.cur()
        }
    }

    spec fn wf(&self) -> bool {
        &&& self.file_stack@.len() <= 1
        &&& self.file_stack@.len() == 1 ==> self.file_stack@[0].data() == self.data@
        &&& 0 <= self.cur() <= self.data@.len()
        &&& self.unget_token matches Some(t) ==> {
            &&& 0 <= self.resume@ <= self.data@.len()
            &&& token_step(self.data@, self.resume@) == (Step::Tok { text: t@, end: self.cur() })
        }
    }

    /// Fetches the next token that is not a comment.  `None` is returned at the end of the
    /// data unless a token is required; otherwise the result says whether the token was read.
    fn next_token(&mut self, flags: Token) -> (r: Option<Result<&'a str, Halt>>)
        requires
            old(self).wf(),
        ensures
            final(self).wf(),
            final(self).data@ == old(self).data@,
            final(self).unget_token is None,
            match token_step(old(self).data@, old(self).at()) {
                Step::Eof => final(self).at() == old(self).data@.len() && (if flags
                    == Token::Required {
                    r matches Some(Err(Halt::Failed(e))) && e@ == ErrorView::EOF
                } else {
                    r is None
                }),
                Step::Tok { text, end } => final(self).at() == end && (r matches Some(Ok(s))
                    && s@ == text),
                Step::Fail { error, end } => final(self).at() == end && (r matches Some(
                    Err(Halt::Failed(e)),
                ) && e@ == error),
                Step::Escaped => r matches Some(Err(Halt::Escaped)),
            },
    {
        match self.unget_token {
            Some(token) => {
                self.unget_token = None;
                return Some(Ok(token));
            },
            None => {},
        }
        loop
            invariant
                self.wf(),
                self.data@ == old(self).data@,
                self.unget_token is None,
                token_step(self.data@, self.cur()) == token_step(old(self).data@, old(self).at()),
            decreases self.data@.len() - self.cur(), self.file_stack@.len(),
        {
            let ghost data = self.data@;
            let ghost pos = self.cur();
            match self.file_stack.pop() {
                None => {
                    if flags == Token::Required {
                        return Some(Err(Halt::Failed(Error::EOF)));
                    } else {
                        return None;
                    }
                },
                Some(mut last) => {
                    proof {
                        lemma_lex_bounds(data, pos);
                    }
                    let tok = last.read();
                    proof {
                        use_type_invariant(&last);
                    }
                    self.file_stack.push(last);
                    match tok {
                        None => {
                            let _ = self.file_stack.pop();
                        },
                        Some(Ok(t)) => {
                            let b = t.as_bytes();
                            if b.len() > 0 && b[0] == 0x23 {
                                proof {
                                    lemma_token_step_bounds(data, pos);
                                }
                            } else {
                                return Some(Ok(t));
                            }
                        },
                        Some(Err(e)) => {
                            return Some(Err(e));
                        },
                    }
                },
            }
        }
    }
    /// Reads the values of the parameter declared by the quoted token `decl`: a bracketed
    /// list or a single value.
    fn read_values(&mut self, decl: &'a str) -> (r: Result<ParamListItem<'a>, Halt>)
        requires
            old(self).wf(),
            quoted(decl@),
        ensures
            final(self).wf(),
            final(self).data@ == old(self).data@,
            final(self).unget_token is None,
            match values_from(old(self).data@, old(self).at(), decl@) {
                (Outcome::Done(item), after) => r matches Ok(it) && it@ == item && final(self).at()
                    == after,
                (Outcome::Failed(e), _) => r matches Err(Halt::Failed(err)) && err@ == e,
                (Outcome::Escaped, _) => r matches Err(Halt::Escaped),
            },
    {
        let ghost data = self.data@;
        let name = match dequote_string(decl) {
            Ok(n) => n.to_owned(),
            Err(e) => return Err(Halt::Failed(e)),
        };
        let mut item = ParamListItem {
            name,
            double_values: Vec::new(),
            string_values: Vec::new(),
        };
        proof {
            assert(item@.nums =~= Seq::<Seq<char>>::empty());
            assert(item@.strs =~= Seq::<Seq<char>>::empty());
        }
        let val = match self.next_token(Token::Required) {
            None => {
                proof {
                    assert(false);
                }
                return Err(Halt::Failed(Error::EOF));
            },
            Some(Ok(val)) => val,
            Some(Err(e)) => return Err(e),
        };
        if str_eq(val, "[") {
            let ghost total = list_from(data, self.at(), item@);
            loop
                invariant_except_break
                    list_from(data, self.at(), item@) == total,
                invariant
                    self.wf(),
                    self.data@ == data,
                    data == old(self).data@,
                    total == values_from(data, old(self).at(), decl@),
                    self.unget_token is None,
                ensures
                    total == (Outcome::Done(item@), self.at()),
                decreases data.len() - self.at(),
            {
                let ghost pos = self.at();
                proof {
                    lemma_token_step_bounds(data, pos);
                }
                let v = match self.next_token(Token::Required) {
                    None => {
                        proof {
                            assert(false);
                        }
                        return Err(Halt::Failed(Error::EOF));
                    },
                    Some(Ok(v)) => v,
                    Some(Err(e)) => return Err(e),
                };
                if str_eq(v, "]") {
                    break;
                }
                match add_val(&mut item, v) {
                    Ok(()) => {},
                    Err(e) => return Err(Halt::Failed(e)),
                }
            }
        } else {
            match add_val(&mut item, val) {
                Ok(()) => {},
                Err(e) => return Err(Halt::Failed(e)),
            }
        }
        Ok(item)
    }

    /// Reads a parameter list: quoted declarations, each followed by its values, up to the
    /// first token that is not quoted, which is handed back for the next statement.
    fn parse_params(&mut self) -> (r: Result<ParamSet, Halt>)
        requires
            old(self).wf(),
        ensures
            final(self).wf(),
            final(self).data@ == old(self).data@,
            match params_from(old(self).data@, old(self).at(), Map::empty()) {
                (Outcome::Done(m), after) => r matches Ok(ps) && ps@ == m && final(self).at()
                    == after,
                (Outcome::Failed(e), _) => r matches Err(Halt::Failed(err)) && err@ == e,
                (Outcome::Escaped, _) => r matches Err(Halt::Escaped),
            },
    {
        let ghost data = self.data@;
        let ghost total = params_from(data, self.at(), Map::empty());
        let mut ps = ParamSet::default();
        loop
            invariant
                self.wf(),
                self.data@ == data,
                data == old(self).data@,
                total == params_from(data, old(self).at(), Map::empty()),
                params_from(data, self.at(), ps@) == total,
            decreases data.len() - self.at(),
        {
            let ghost pos = self.at();
            proof {
                lemma_token_step_bounds(data, pos);
            }
            let decl = match self.next_token(Token::Optional) {
                None => return Ok(ps),
                Some(Ok(decl)) => decl,
                Some(Err(e)) => return Err(e),
            };
            if !is_quoted_string(decl) {
                self.unget_token = Some(decl);
                self.resume = Ghost(pos);
                return Ok(ps);
            }
            proof {
                lemma_token_step_bounds(data, self.at());
                lemma_values_from_bounds(data, self.at(), decl@);
            }
            let item = match self.read_values(decl) {
                Ok(item) => item,
                Err(e) => return Err(e),
            };
            add_param(&mut ps, item);
        }
    }
    /// Reads the quoted name and the parameter list of a statement.
    fn basic_param_list_entrypoint(&mut self) -> (r: Result<(String, ParamSet), Halt>)
        requires
            old(self).wf(),
        ensures
            final(self).wf(),
            final(self).data@ == old(self).data@,
            match entry_from(old(self).data@, old(self).at()) {
                (Outcome::Done((name, m)), after) => r matches Ok((n, ps)) && n@ == name && ps@
                    == m && final(self).at() == after,
                (Outcome::Failed(e), _) => r matches Err(Halt::Failed(err)) && err@ == e,
                (Outcome::Escaped, _) => r matches Err(Halt::Escaped),
            },
    {
        proof {
            lemma_token_step_bounds(self.data@, self.at());
        }
        let token = match self.next_token(Token::Required) {
            None => {
                proof {
                    assert(false);
                }
                return Err(Halt::Failed(Error::Unquoted(String::new())));
            },
            Some(Ok(token)) => token,
            Some(Err(e)) => return Err(e),
        };
        let n = match dequote_string(token) {
            Ok(n) => n,
            Err(e) => return Err(Halt::Failed(e)),
        };
        let params = match self.parse_params() {
            Ok(params) => params,
            Err(e) => return Err(e),
        };
        Ok((n.to_owned(), params))
    }

    /// Reads `n` number literals.
    fn read_numbers(&mut self, n: usize) -> (r: Result<Vec<String>, Halt>)
        requires
            old(self).wf(),
        ensures
            final(self).wf(),
            final(self).data@ == old(self).data@,
            match numbers_from(old(self).data@, old(self).at(), n as nat) {
                (Outcome::Done(ns), after) => r matches Ok(v) && strs(v@) == ns && v@.len() == n
                    && final(self).at() == after,
                (Outcome::Failed(e), _) => r matches Err(Halt::Failed(err)) && err@ == e,
                (Outcome::Escaped, _) => r matches Err(Halt::Escaped),
            },
    {
        let ghost data = self.data@;
        let ghost total = numbers_from(data, self.at(), n as nat);
        proof {
            lemma_numbers_len(data, self.at(), n as nat);
        }
        let mut out: Vec<String> = Vec::new();
        let mut i: usize = 0;
        proof {
            assert(strs(out@) + total.0->Done_0 =~= total.0->Done_0);
            assert(with_prefix(strs(out@), total) =~= total);
        }
        while i < n
            invariant
                self.wf(),
                self.data@ == data,
                data == old(self).data@,
                total == numbers_from(data, old(self).at(), n as nat),
                i <= n,
                with_prefix(strs(out@), numbers_from(data, self.at(), (n - i) as nat)) == total,
            decreases n - i,
        {
            let ghost pos = self.at();
            proof {
                lemma_token_step_bounds(data, pos);
            }
            let tok = match self.next_token(Token::Required) {
                None => {
                    proof {
                        assert(false);
                    }
                    return Err(Halt::Failed(Error::EOF));
                },
                Some(Ok(tok)) => tok,
                Some(Err(e)) => return Err(e),
            };
            if !is_float_literal(tok) {
                return Err(Halt::Failed(Error::NumberErr(tok.to_owned())));
            }
            let ghost before = out@;
            let owned = tok.to_owned();
            out.push(owned);
            proof {
                lemma_strs_push(before, owned);
                let rest = numbers_from(data, self.at(), (n - i - 1) as nat);
                if rest.0 is Done {
                    assert(strs(before) + (seq![tok@] + rest.0->Done_0) =~= strs(out@)
                        + rest.0->Done_0);
                }
            }
            i = i + 1;
        }
        proof {
            assert(strs(out@) + Seq::<Seq<char>>::empty() =~= strs(out@));
        }
        Ok(out)
    }
    /// Reads the statement whose keyword `tok` was just read.
    fn statement(&mut self, tok: &'a str) -> (r: Result<Command, Halt>)
        requires
            old(self).wf(),
        ensures
            final(self).wf(),
            final(self).data@ == old(self).data@,
            match statement_from(old(self).data@, tok@, old(self).at()) {
                (Outcome::Done(c), after) => r matches Ok(cmd) && cmd@ == c && final(self).at()
                    == after,
                (Outcome::Failed(e), _) => r matches Err(Halt::Failed(err)) && err@ == e,
                (Outcome::Escaped, _) => r matches Err(Halt::Escaped),
            },
    {
        if str_eq(tok, "Accelerator") || str_eq(tok, "Film") || str_eq(tok, "Sampler") {
            let (name, params) = match self.basic_param_list_entrypoint() {
                Ok(entry) => entry,
                Err(e) => return Err(e),
            };
            if str_eq(tok, "Accelerator") {
                Ok(Command::Accelerator { name, params })
            } else if str_eq(tok, "Film") {
                Ok(Command::Film { name, params })
            } else {
                Ok(Command::Sampler { name, params })
            }
        } else if str_eq(tok, "AttributeBegin") {
            Ok(Command::AttributeBegin)
        } else if str_eq(tok, "AttributeEnd") {
            Ok(Command::AttributeEnd)
        } else if str_eq(tok, "LookAt") {
            let v = match self.read_numbers(9) {
                Ok(v) => v,
                Err(e) => return Err(e),
            };
            let eye = triple_at(&v, 0);
            let look = triple_at(&v, 3);
            let up = triple_at(&v, 6);
            proof {
                assert(strs(eye@) + strs(look@) + strs(up@) =~= strs(v@));
            }
            Ok(Command::LookAt { eye, look, up })
        } else if str_eq(tok, "Scale") {
            let v = match self.read_numbers(3) {
                Ok(v) => v,
                Err(e) => return Err(e),
            };
            let f = triple_at(&v, 0);
            proof {
                assert(strs(f@) =~= strs(v@));
            }
            Ok(Command::Scale(f))
        } else if is_unhandled_keyword(tok) {
            Err(Halt::Failed(Error::NotImplemented(tok.to_owned())))
        } else {
            Err(Halt::Failed(Error::Syntax(tok.to_owned())))
        }
    }
}

/// The views of `commands`.
pub open spec fn views(commands: Seq<Command>) -> Seq<CommandView> {
    commands.map_values(|c: Command| c@)
}

/// Parses the statements that `t` reads, up to the end of its data or the first error,
/// and returns the commands they give with how parsing ended.  No quoted string that the
/// parser reads may hold a backslash escape; `try_parse` tells whether one does.
pub fn parse<'a>(t: Tokenizer<'a>) -> (r: (Vec<Command>, Result<(), Error>))
    requires
        !(parse_from(t.data(), t.pos()).1 is Escaped),
    ensures
        views(r.0@) == parse_from(t.data(), t.pos()).0,
        match parse_from(t.data(), t.pos()).1 {
            Outcome::Done(()) => r.1 is Ok,
            Outcome::Failed(e) => r.1 matches Err(err) && err@ == e,
            Outcome::Escaped => false,
        },
{
    match try_parse(t) {
        Some(r) => r,
        None => {
            proof {
                assert(false);
            }
            (Vec::new(), Ok(()))
        },
    }
}

/// Parses like `parse`, but returns `None` when parsing reaches a quoted string with a
/// backslash escape, which `parse` does not accept.
pub fn try_parse<'a>(t: Tokenizer<'a>) -> (r: Option<(Vec<Command>, Result<(), Error>)>)
    ensures
        match parse_from(t.data(), t.pos()).1 {
            Outcome::Done(()) => r matches Some((cs, res)) && res is Ok && views(cs@)
                == parse_from(t.data(), t.pos()).0,
            Outcome::Failed(e) => r matches Some((cs, res)) && (res matches Err(err) && err@ == e)
                && views(cs@) == parse_from(t.data(), t.pos()).0,
            Outcome::Escaped => r is None,
        },
{
    proof {
        use_type_invariant(&t);
    }
    let ghost data = t.data();
    let ghost total = parse_from(t.data(), t.pos());
    let mut p = Parser { file_stack: vec![t], unget_token: None, data: Ghost(data), resume: Ghost(0) };
    let mut commands: Vec<Command> = Vec::new();
    proof {
        assert(views(commands@) + total.0 =~= total.0);
    }
    loop
        invariant
            p.wf(),
            p.data@ == data,
            total == parse_from(t.data(), t.pos()),
            views(commands@) + parse_from(data, p.at()).0 == total.0,
            parse_from(data, p.at()).1 == total.1,
        decreases data.len() - p.at(),
    {
        let ghost pos = p.at();
        proof {
            lemma_token_step_bounds(data, pos);
        }
        let tok = match p.next_token(Token::Optional) {
            None => {
                proof {
                    assert(views(commands@) + Seq::<CommandView>::empty() =~= views(commands@));
                }
                return Some((commands, Ok(())));
            },
            Some(Ok(tok)) => tok,
            Some(Err(Halt::Failed(e))) => {
                proof {
                    assert(views(commands@) + Seq::<CommandView>::empty() =~= views(commands@));
                }
                return Some((commands, Err(e)));
            },
            Some(Err(Halt::Escaped)) => return None,
        };
        proof {
            lemma_statement_from_bounds(data, tok@, p.at());
        }
        match p.statement(tok) {
            Ok(c) => {
                let ghost before = commands@;
                commands.push(c);
                proof {
                    assert(views(commands@) =~= views(before).push(c@));
                    let rest = parse_from(data, p.at());
                    assert(views(before) + (seq![c@] + rest.0) =~= views(commands@) + rest.0);
                }
            },
            Err(Halt::Failed(e)) => {
                proof {
                    assert(views(commands@) + Seq::<CommandView>::empty() =~= views(commands@));
                }
                return Some((commands, Err(e)));
            },
            Err(Halt::Escaped) => return None,
        }
    }
}

} // verus!
