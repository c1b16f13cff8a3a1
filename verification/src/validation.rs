//! What a request must look like to be taken up: the number of the account in
//! the path and the fields of a transaction in the body.

use crate::decimal::{all_digits, lemma_value_bounds, read_digits, value_of};
use crate::models::transacao::{Descricao, NewTransacao, TipoTransacao};
use vstd::prelude::*;
use vstd::string::StrSliceExecFns;

verus! {

/// The request is not of the form that is asked for.
#[derive(Clone, Copy, Debug, PartialEq, Eq, Structural)]
pub struct Malformed;

/// The fields of a transaction as a client sent them. A field is `None` where
/// it is missing or not of its kind: `valor` where it is no integer of 64
/// bits, `tipo` and `descricao` where they are no text.
#[derive(Debug)]
pub struct RawPost {
    pub valor: Option<i64>,
    pub tipo: Option<String>,
    pub descricao: Option<String>,
}

/// The fields of a transaction that was found well-formed.
pub struct Command {
    pub valor: i32,
    pub tipo: TipoTransacao,
    pub descricao: Seq<char>,
}

/// `text` begins with a sign.
pub open spec fn signed(text: Seq<char>) -> bool {
    text.len() > 0 && (text[0] == '-' || text[0] == '+')
}

/// The digits of `text`: all of it but a sign in front.
pub open spec fn digits_of(text: Seq<char>) -> Seq<char> {
    if signed(text) {
        text.skip(1)
    } else {
        text
    }
}

/// The integer that `text` writes in decimal: an optional `+` or `-`, then
/// one digit or more and nothing else.
pub open spec fn integer_of(text: Seq<char>) -> Option<int> {
    let digits = digits_of(text);
    if digits.len() == 0 || !all_digits(digits) {
        None
    } else if text[0] == '-' {
        Some(-value_of(digits))
    } else {
        Some(value_of(digits))
    }
}

/// The number of an account that `text` writes, where it writes an integer of
/// 32 bits.
pub open spec fn id_of(text: Seq<char>) -> Option<i32> {
    match integer_of(text) {
        Some(v) => if i32::MIN <= v <= i32::MAX {
            Some(v as i32)
        } else {
            None
        },
        None => None,
    }
}

/// The transaction that the fields ask for, where they are well-formed: an
/// amount that is not negative and fits 32 bits, the kind `"c"` or `"d"`, and a
/// description of one to ten characters.
pub open spec fn validated(valor: Option<i64>, tipo: Option<Seq<char>>, descricao: Option<Seq<char>>) -> Option<
    Command,
> {
    match (valor, tipo, descricao) {
        (Some(v), Some(t), Some(d)) => if 0 <= v <= i32::MAX && TipoTransacao::of_text(t)
            != TipoTransacao::ERROR && Descricao::fits(d) {
            Some(Command { valor: v as i32, tipo: TipoTransacao::of_text(t), descricao: d })
        } else {
            None
        },
        _ => None,
    }
}

/// The text of an optional field.
pub open spec fn text_of(field: Option<String>) -> Option<Seq<char>> {
    match field {
        Some(text) => Some(text@),
        None => None,
    }
}

impl RawPost {
    /// The transaction that these fields ask for, where they are well-formed.
    pub open spec fn validated(self) -> Option<Command> {
        validated(self.valor, text_of(self.tipo), text_of(self.descricao))
    }
}

impl NewTransacao {
    /// The fields of this transaction.
    pub open spec fn command(self) -> Command {
        Command { valor: self.valor, tipo: self.tipo, descricao: self.descricao@ }
    }
}

/// Reads the number of an account from a segment of the path.
pub fn validate_id(raw: &str) -> (r: Result<i32, Malformed>)
    ensures
        match id_of(raw@) {
            Some(id) => r == Ok::<i32, Malformed>(id),
            None => r == Err::<i32, Malformed>(Malformed),
        },
{
    if raw.unicode_len() == 0 {
        return Err(Malformed);
    }
    let first = raw.get_char(0);
    let negative = first == '-';
    let start: usize = if first == '-' || first == '+' {
        1
    } else {
        0
    };
    assert(digits_of(raw@) =~= raw@.skip(start as int));
    let most: u64 = if negative {
        0x8000_0000
    } else {
        0x7fff_ffff
    };
    proof {
        if all_digits(digits_of(raw@)) {
            lemma_value_bounds(digits_of(raw@));
        }
    }
    match read_digits(raw, start, most) {
        Some(value) => if negative {
            Ok((-(value as i64)) as i32)
        } else {
            Ok(value as i32)
        },
        None => Err(Malformed),
    }
}

/// Checks the fields of a transaction and builds the transaction they ask
/// for.
pub fn validate_post(raw: RawPost) -> (r: Result<NewTransacao, Malformed>)
    ensures
        match raw.validated() {
            Some(command) => r matches Ok(transacao) && transacao.command() == command && transacao.valid(),
            None => r matches Err(Malformed),
        },
{
    let valor = match raw.valor {
        Some(v) => v,
        None => {
            return Err(Malformed);
        },
    };
    if valor < 0 || valor > i32::MAX as i64 {
        return Err(Malformed);
    }
    let tipo = match raw.tipo {
        Some(text) => TipoTransacao::from(text.as_str()),
        None => {
            return Err(Malformed);
        },
    };
    match tipo {
        TipoTransacao::ERROR => {
            return Err(Malformed);
        },
        _ => {},
    }
    let descricao = match raw.descricao {
        Some(text) => match Descricao::try_from(text) {
            Ok(descricao) => descricao,
            Err(_) => {
                return Err(Malformed);
            },
        },
        None => {
            return Err(Malformed);
        },
    };
    Ok(NewTransacao { valor: valor as i32, tipo, descricao })
}

/// Checking is idempotent: the fields of a transaction that passed the check
/// pass it again and ask for the same transaction.
pub proof fn lemma_validation_idempotent(
    valor: Option<i64>,
    tipo: Option<Seq<char>>,
    descricao: Option<Seq<char>>,
)
    requires
        validated(valor, tipo, descricao) is Some,
    ensures
        ({
            let command = validated(valor, tipo, descricao)->Some_0;
            validated(Some(command.valor as i64), Some(command.tipo.text()), Some(command.descricao)) == Some(
                command,
            )
        }),
{
    reveal_strlit("c");
    reveal_strlit("d");
    assert("c"@[0] != "d"@[0]);
}

} // verus!
