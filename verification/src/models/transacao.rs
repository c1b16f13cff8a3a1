//! Transactions: their kind, their description, and the records built from them.

use crate::clock::Timestamp;
use crate::persistence::{Fault, PersistenceError, PersistenceResult};
use vstd::prelude::*;
use vstd::string::StrSliceExecFns;

verus! {

/// Whether a transaction adds to the balance or takes from it. `ERROR` stands
/// for any kind that is neither.
#[derive(Clone, Copy, Debug, PartialEq, Eq, Structural)]
pub enum TipoTransacao {
    CREDITO,
    DEBITO,
    ERROR,
}

impl TipoTransacao {
    /// The kind that a text names: `"c"` a credit, `"d"` a debit, any other none.
    pub open spec fn of_text(text: Seq<char>) -> TipoTransacao {
        if text == "c"@ {
            TipoTransacao::CREDITO
        } else if text == "d"@ {
            TipoTransacao::DEBITO
        } else {
            TipoTransacao::ERROR
        }
    }

    /// The text that names a kind; only credits and debits have one.
    pub open spec fn text(self) -> Seq<char>
        recommends
            self != TipoTransacao::ERROR,
    {
        if self == TipoTransacao::CREDITO {
            "c"@
        } else {
            "d"@
        }
    }

    /// The one-letter name of a credit or a debit.
    pub fn as_str(self) -> (name: &'static str)
        requires
            self != TipoTransacao::ERROR,
        ensures
            name@ == self.text(),
            TipoTransacao::of_text(name@) == self,
    {
        proof {
            reveal_strlit("c");
            reveal_strlit("d");
            assert("c"@[0] != "d"@[0]);
        }
        match self {
            TipoTransacao::CREDITO => "c",
            _ => "d",
        }
    }
}

impl<'a> vstd::std_specs::convert::FromSpecImpl<&'a str> for TipoTransacao {
    open spec fn obeys_from_spec() -> bool {
        true
    }

    open spec fn from_spec(value: &'a str) -> TipoTransacao {
        TipoTransacao::of_text(value@)
    }
}

impl<'a> From<&'a str> for TipoTransacao {
    /// The kind that a text names.
    fn from(value: &'a str) -> (tipo: TipoTransacao)
        ensures
            tipo == TipoTransacao::of_text(value@),
    {
        proof {
            reveal_strlit("c");
            reveal_strlit("d");
        }
        if value.unicode_len() != 1 {
            return TipoTransacao::ERROR;
        }
        let letter = value.get_char(0);
        if letter == 'c' {
            assert(value@ =~= "c"@);
            TipoTransacao::CREDITO
        } else if letter == 'd' {
            assert(value@ =~= "d"@);
            TipoTransacao::DEBITO
        } else {
            TipoTransacao::ERROR
        }
    }
}

/// What a transaction was for: a text of one to ten characters.
#[derive(Debug)]
pub struct Descricao(String);

impl View for Descricao {
    type V = Seq<char>;

    closed spec fn view(&self) -> Seq<char> {
        self.0@
    }
}

impl Descricao {
    /// A text of this length can describe a transaction.
    pub open spec fn fits(text: Seq<char>) -> bool {
        1 <= text.len() <= 10
    }

    #[verifier::type_invariant]
    spec fn within_bounds(self) -> bool {
        Descricao::fits(self.0@)
    }

    /// What `try_from` answers for a text.
    pub open spec fn checked(text: Seq<char>, r: Result<Descricao, &'static str>) -> bool {
        if text.len() < 1 {
            r matches Err(message) && message@ == "descricao is too short"@
        } else if text.len() <= 10 {
            r matches Ok(descricao) && descricao@ == text
        } else {
            r matches Err(message) && message@ == "descricao is too big"@
        }
    }

    /// The text itself.
    pub fn as_str(&self) -> (text: &str)
        ensures
            text@ == self@,
            Descricao::fits(text@),
    {
        proof {
            use_type_invariant(self);
        }
        self.0.as_str()
    }
}

impl vstd::std_specs::convert::TryFromSpecImpl<String> for Descricao {
    open spec fn obeys_try_from_spec() -> bool {
        true
    }

    closed spec fn try_from_spec(value: String) -> Result<Descricao, &'static str> {
        if value@.len() < 1 {
            Err("descricao is too short")
        } else if value@.len() <= 10 {
            Ok(Descricao(value))
        } else {
            Err("descricao is too big")
        }
    }
}

impl TryFrom<String> for Descricao {
    type Error = &'static str;

    /// Accepts a text of one to ten characters and says of any other whether
    /// it is too short or too big.
    fn try_from(value: String) -> (r: Result<Descricao, &'static str>)
        ensures
            Descricao::checked(value@, r),
    {
        let length = value.as_str().unicode_len();
        if length < 1 {
            Err("descricao is too short")
        } else if length <= 10 {
            Ok(Descricao(value))
        } else {
            Err("descricao is too big")
        }
    }
}

impl vstd::std_specs::convert::FromSpecImpl<Descricao> for String {
    open spec fn obeys_from_spec() -> bool {
        true
    }

    closed spec fn from_spec(value: Descricao) -> String {
        value.0
    }
}

impl From<Descricao> for String {
    /// The text of a description, now free of its bounds.
    fn from(value: Descricao) -> (text: String)
        ensures
            text@ == value@,
    {
        value.0
    }
}

impl Clone for Descricao {
    fn clone(&self) -> (copy: Descricao)
        ensures
            copy == *self,
    {
        proof {
            use_type_invariant(self);
        }
        Descricao(self.0.clone())
    }
}

/// A transaction as it was recorded for an account.
#[derive(Debug)]
pub struct Transacao {
    pub transacao_id: i32,
    pub valor: i32,
    pub tipo: TipoTransacao,
    pub descricao: Descricao,
    pub realizada_em: Timestamp,
}

impl Transacao {
    /// `self` is listed before `other` in a statement: it was made later, or
    /// at the same instant and recorded later.
    pub open spec fn newer_than(self, other: Transacao) -> bool {
        other.realizada_em.before(self.realizada_em) || (other.realizada_em == self.realizada_em
            && other.transacao_id < self.transacao_id)
    }

    /// What a row of the store is read as: a record, where its kind is `"c"`
    /// or `"d"` and its description has one to ten characters; else the row
    /// cannot be read.
    pub open spec fn read_as(
        r: PersistenceResult<Transacao>,
        transacao_id: i32,
        valor: i32,
        tipo: Seq<char>,
        descricao: Seq<char>,
        realizada_em: Timestamp,
    ) -> bool {
        if TipoTransacao::of_text(tipo) != TipoTransacao::ERROR && Descricao::fits(descricao) {
            &&& r matches Ok(t)
            &&& t.transacao_id == transacao_id
            &&& t.valor == valor
            &&& t.tipo == TipoTransacao::of_text(tipo)
            &&& t.descricao@ == descricao
            &&& t.realizada_em == realizada_em
        } else {
            r == Err::<Transacao, PersistenceError>(PersistenceError::DatabaseError(Fault::Unreadable))
        }
    }

    /// Reads a row of the store as a record.
    pub fn from_row(transacao_id: i32, valor: i32, tipo: &str, descricao: String, realizada_em: Timestamp) -> (r:
        PersistenceResult<Transacao>)
        ensures
            Transacao::read_as(r, transacao_id, valor, tipo@, descricao@, realizada_em),
    {
        let tipo = TipoTransacao::from(tipo);
        match tipo {
            TipoTransacao::ERROR => {
                return Err(PersistenceError::DatabaseError(Fault::Unreadable));
            },
            _ => {},
        }
        match Descricao::try_from(descricao) {
            Ok(descricao) => Ok(Transacao { transacao_id, valor, tipo, descricao, realizada_em }),
            Err(_) => Err(PersistenceError::DatabaseError(Fault::Unreadable)),
        }
    }

    /// Whether `self` is listed before `other` in a statement.
    pub fn is_newer_than(&self, other: &Transacao) -> (r: bool)
        ensures
            r == self.newer_than(*other),
    {
        other.realizada_em.is_before(&self.realizada_em) || (other.realizada_em.secs
            == self.realizada_em.secs && other.realizada_em.nanos == self.realizada_em.nanos
            && other.transacao_id < self.transacao_id)
    }
}

impl Clone for Transacao {
    fn clone(&self) -> (copy: Transacao)
        ensures
            copy == *self,
    {
        Transacao {
            transacao_id: self.transacao_id,
            valor: self.valor,
            tipo: self.tipo,
            descricao: self.descricao.clone(),
            realizada_em: self.realizada_em,
        }
    }
}

/// A transaction that a client asks for.
#[derive(Debug)]
pub struct NewTransacao {
    pub valor: i32,
    pub tipo: TipoTransacao,
    pub descricao: Descricao,
}

impl NewTransacao {
    /// The request names a credit or a debit of an amount that is not negative.
    pub open spec fn valid(self) -> bool {
        self.valor >= 0 && self.tipo != TipoTransacao::ERROR
    }

    /// The record of this request once it is made at `realizada_em` and
    /// numbered `transacao_id`.
    pub open spec fn recorded(self, transacao_id: i32, realizada_em: Timestamp) -> Transacao {
        Transacao {
            transacao_id,
            valor: self.valor,
            tipo: self.tipo,
            descricao: self.descricao,
            realizada_em,
        }
    }
}

impl Clone for NewTransacao {
    fn clone(&self) -> (copy: NewTransacao)
        ensures
            copy == *self,
    {
        NewTransacao { valor: self.valor, tipo: self.tipo, descricao: self.descricao.clone() }
    }
}

/// The amounts of a balance after a transaction was applied.
#[derive(Clone, Copy, Debug, PartialEq, Eq, Structural)]
pub struct TransacaoResponse {
    pub limite: i32,
    pub saldo: i32,
}

} // verus!
