//! `Transaction` represents one requested operation on an account.
use super::money::{parse_spec, Money};
use super::Client;
use crate::decimal::{parse_unsigned, unsigned_of};
use crate::text::{matches_ignoring_case, same_ignoring_case, same_text};
use vstd::prelude::*;
use vstd::string::*;

verus! {

/// A transaction identifier, unique across the whole input.
pub type Id = u32;

/// What a transaction asks for.
#[derive(Clone, Copy, Debug, PartialEq, Eq, Structural)]
pub enum Action {
    Deposit { amount: Money },
    Withdrawal { amount: Money },
    Dispute,
    Resolve,
    Chargeback,
}

impl Action {
    /// Whether the action is well formed: a deposit or a withdrawal carries
    /// an amount that is not negative.
    pub open spec fn valid(self) -> bool {
        match self {
            Action::Deposit { amount } => amount@ >= 0,
            Action::Withdrawal { amount } => amount@ >= 0,
            _ => true,
        }
    }

    /// A deposit of `amount`, which must not be negative.
    pub fn new_deposit(amount: Money) -> (action: Action)
        requires
            amount@ >= 0,
        ensures
            action == (Action::Deposit { amount }),
            action.valid(),
    {
        Action::Deposit { amount }
    }

    /// A withdrawal of `amount`, which must not be negative.
    pub fn new_withdrawal(amount: Money) -> (action: Action)
        requires
            amount@ >= 0,
        ensures
            action == (Action::Withdrawal { amount }),
            action.valid(),
    {
        Action::Withdrawal { amount }
    }

    /// A dispute; it carries no amount.
    pub fn new_dispute() -> (action: Action)
        ensures
            action == Action::Dispute,
    {
        Action::Dispute
    }

    /// A resolve; it carries no amount.
    pub fn new_resolve() -> (action: Action)
        ensures
            action == Action::Resolve,
    {
        Action::Resolve
    }

    /// A chargeback; it carries no amount.
    pub fn new_chargeback() -> (action: Action)
        ensures
            action == Action::Chargeback,
    {
        Action::Chargeback
    }
}

/// One requested operation: what to do, for which client, under which id.
#[derive(Clone, Copy, Debug, PartialEq, Eq, Structural)]
pub struct Transaction {
    pub action: Action,
    pub client: Client,
    pub id: Id,
}

impl Transaction {
    /// Whether the transaction is well formed: its action is.
    pub open spec fn valid(self) -> bool {
        self.action.valid()
    }

    /// The transaction that asks for `action` for `client` under `id`.
    pub fn new(action: Action, client: Client, id: Id) -> (tx: Transaction)
        ensures
            tx == (Transaction { action, client, id }),
    {
        Transaction { action, client, id }
    }

    /// What the transaction asks for.
    pub fn action(&self) -> (action: Action)
        ensures
            action == self.action,
    {
        self.action
    }

    /// The client whose account the transaction is for.
    pub fn client(&self) -> (client: Client)
        ensures
            client == self.client,
    {
        self.client
    }

    /// The transaction's identifier.
    pub fn id(&self) -> (id: Id)
        ensures
            id == self.id,
    {
        self.id
    }
}

/// The kind of an operation, as an input record names it.
#[derive(Clone, Copy, Debug, PartialEq, Eq, Structural)]
pub enum ActionType {
    Deposit,
    Withdrawal,
    Dispute,
    Resolve,
    Chargeback,
}

/// The named fields of an input record.
#[derive(Clone, Copy, Debug, PartialEq, Eq, Structural)]
pub enum Field {
    /// `type`: the kind of operation.
    Type,
    /// `client`: the client's identifier.
    Client,
    /// `tx`: the transaction's identifier.
    Tx,
    /// `amount`: the amount of a deposit or withdrawal.
    Amount,
}

/// Why an input record is no transaction.
#[derive(Clone, Copy, Debug, PartialEq, Eq, Structural)]
pub enum RecordError {
    /// A field that the record needs is not there.
    Missing(Field),
    /// A field is there twice.
    Duplicate(Field),
    /// A field's text cannot be read as what the field holds.
    Invalid(Field),
    /// A deposit or withdrawal of a negative amount.
    NegativeAmount,
    /// An amount on a dispute, resolve or chargeback.
    UnexpectedAmount,
}

/// What has been read of a record so far. `amount` is `Some(None)` once an
/// empty amount field was seen.
#[derive(Clone, Copy, Debug, PartialEq, Eq, Structural)]
pub struct Fields {
    pub kind: Option<ActionType>,
    pub amount: Option<Option<Money>>,
    pub client: Option<Client>,
    pub id: Option<Id>,
}

/// The kind that `text` names, whatever the case of its letters.
pub open spec fn action_type_of(text: Seq<char>) -> Option<ActionType> {
    if same_ignoring_case(text, "deposit"@) {
        Some(ActionType::Deposit)
    } else if same_ignoring_case(text, "withdrawal"@) {
        Some(ActionType::Withdrawal)
    } else if same_ignoring_case(text, "dispute"@) {
        Some(ActionType::Dispute)
    } else if same_ignoring_case(text, "resolve"@) {
        Some(ActionType::Resolve)
    } else if same_ignoring_case(text, "chargeback"@) {
        Some(ActionType::Chargeback)
    } else {
        None
    }
}

/// The transaction that the parts of a record make: a deposit or withdrawal
/// needs an amount that is not negative, the other kinds must have none.
pub open spec fn from_parts_spec(
    kind: ActionType,
    amount: Option<Money>,
    client: Client,
    id: Id,
) -> Result<Transaction, RecordError> {
    match kind {
        ActionType::Deposit | ActionType::Withdrawal => match amount {
            None => Err(RecordError::Missing(Field::Amount)),
            Some(amount) => if amount@ < 0 {
                Err(RecordError::NegativeAmount)
            } else if kind == ActionType::Deposit {
                Ok(Transaction { action: Action::Deposit { amount }, client, id })
            } else {
                Ok(Transaction { action: Action::Withdrawal { amount }, client, id })
            },
        },
        ActionType::Dispute => match amount {
            Some(_) => Err(RecordError::UnexpectedAmount),
            None => Ok(Transaction { action: Action::Dispute, client, id }),
        },
        ActionType::Resolve => match amount {
            Some(_) => Err(RecordError::UnexpectedAmount),
            None => Ok(Transaction { action: Action::Resolve, client, id }),
        },
        ActionType::Chargeback => match amount {
            Some(_) => Err(RecordError::UnexpectedAmount),
            None => Ok(Transaction { action: Action::Chargeback, client, id }),
        },
    }
}

/// Nothing read yet.
pub open spec fn no_fields() -> Fields {
    Fields { kind: None, amount: None, client: None, id: None }
}

/// Reads one column: the field that `name` names takes what `value` holds.
/// A column of another name is passed over. A field may come once, and an
/// empty `amount` stands for no amount.
pub open spec fn read_field(fields: Fields, name: Seq<char>, value: Seq<char>) -> Result<
    Fields,
    RecordError,
> {
    if name == "type"@ {
        if fields.kind is Some {
            Err(RecordError::Duplicate(Field::Type))
        } else {
            match action_type_of(value) {
                Some(kind) => Ok(Fields { kind: Some(kind), ..fields }),
                None => Err(RecordError::Invalid(Field::Type)),
            }
        }
    } else if name == "client"@ {
        if fields.client is Some {
            Err(RecordError::Duplicate(Field::Client))
        } else {
            match unsigned_of(value, u16::MAX as nat) {
                Some(client) => Ok(Fields { client: Some(client as Client), ..fields }),
                None => Err(RecordError::Invalid(Field::Client)),
            }
        }
    } else if name == "tx"@ {
        if fields.id is Some {
            Err(RecordError::Duplicate(Field::Tx))
        } else {
            match unsigned_of(value, u32::MAX as nat) {
                Some(id) => Ok(Fields { id: Some(id as Id), ..fields }),
                None => Err(RecordError::Invalid(Field::Tx)),
            }
        }
    } else if name == "amount"@ {
        if fields.amount is Some {
            Err(RecordError::Duplicate(Field::Amount))
        } else if value.len() == 0 {
            Ok(Fields { amount: Some(None), ..fields })
        } else {
            match parse_spec(value) {
                Ok(amount) => Ok(Fields { amount: Some(Some(amount)), ..fields }),
                Err(_) => Err(RecordError::Invalid(Field::Amount)),
            }
        }
    } else {
        Ok(fields)
    }
}

/// Reads the first `count` columns in order, up to the first that fails.
pub open spec fn read_fields(
    header: Seq<Seq<char>>,
    record: Seq<Seq<char>>,
    count: nat,
) -> Result<Fields, RecordError>
    decreases count,
{
    if count == 0 {
        Ok(no_fields())
    } else {
        match read_fields(header, record, (count - 1) as nat) {
            Ok(fields) => read_field(fields, header[count - 1], record[count - 1]),
            Err(error) => Err(error),
        }
    }
}

/// The transaction that the fields make, once all columns are read.
pub open spec fn assemble(fields: Fields) -> Result<Transaction, RecordError> {
    if fields.kind is None {
        Err(RecordError::Missing(Field::Type))
    } else if fields.client is None {
        Err(RecordError::Missing(Field::Client))
    } else if fields.id is None {
        Err(RecordError::Missing(Field::Tx))
    } else {
        from_parts_spec(
            fields.kind->0,
            match fields.amount {
                Some(amount) => amount,
                None => None,
            },
            fields.client->0,
            fields.id->0,
        )
    }
}

/// The number of columns of a record that have a name: a record may be
/// shorter than the header, and what it holds beyond the header is passed
/// over.
pub open spec fn named_columns(header: Seq<Seq<char>>, record: Seq<Seq<char>>) -> nat {
    if header.len() <= record.len() {
        header.len()
    } else {
        record.len()
    }
}

/// The transaction that a record holds under the names of `header`.
pub open spec fn parse_record_spec(header: Seq<Seq<char>>, record: Seq<Seq<char>>) -> Result<
    Transaction,
    RecordError,
> {
    match read_fields(header, record, named_columns(header, record)) {
        Ok(fields) => assemble(fields),
        Err(error) => Err(error),
    }
}

/// A transaction made of the parts of a record is well formed.
pub proof fn lemma_from_parts_valid(kind: ActionType, amount: Option<Money>, client: Client, id: Id)
    ensures
        from_parts_spec(kind, amount, client, id) matches Ok(tx) ==> tx.valid() && tx.client
            == client && tx.id == id,
{
}

/// A transaction read from a record is well formed.
pub proof fn lemma_parsed_record_valid(header: Seq<Seq<char>>, record: Seq<Seq<char>>)
    ensures
        parse_record_spec(header, record) matches Ok(tx) ==> tx.valid(),
{
}

/// Once a column has failed, reading further columns changes nothing.
pub proof fn lemma_read_fields_error_stays(
    header: Seq<Seq<char>>,
    record: Seq<Seq<char>>,
    failed: nat,
    count: nat,
)
    requires
        failed <= count,
        read_fields(header, record, failed) is Err,
    ensures
        read_fields(header, record, count) == read_fields(header, record, failed),
    decreases count,
{
    if failed < count {
        lemma_read_fields_error_stays(header, record, failed, (count - 1) as nat);
    }
}

/// Where all columns can be read, each column before could be read too.
pub proof fn lemma_read_fields_ok_before(
    header: Seq<Seq<char>>,
    record: Seq<Seq<char>>,
    before: nat,
    count: nat,
)
    requires
        before <= count,
        read_fields(header, record, count) is Ok,
    ensures
        read_fields(header, record, before) is Ok,
{
    if read_fields(header, record, before) is Err {
        lemma_read_fields_error_stays(header, record, before, count);
    }
}

/// `s` with what stands at `i` and at `i + 1` exchanged.
pub open spec fn exchanged<A>(s: Seq<A>, i: int) -> Seq<A> {
    s.update(i, s[i + 1]).update(i + 1, s[i])
}

/// Two columns that can be read one after the other can be read in the
/// other order, and give the same fields.
pub proof fn lemma_read_field_commutes(
    fields: Fields,
    name_a: Seq<char>,
    value_a: Seq<char>,
    name_b: Seq<char>,
    value_b: Seq<char>,
)
    requires
        read_field(fields, name_a, value_a) is Ok,
        read_field(read_field(fields, name_a, value_a)->Ok_0, name_b, value_b) is Ok,
    ensures
        read_field(fields, name_b, value_b) is Ok,
        read_field(read_field(fields, name_b, value_b)->Ok_0, name_a, value_a) == read_field(
            read_field(fields, name_a, value_a)->Ok_0,
            name_b,
            value_b,
        ),
{
    reveal_strlit("type");
    reveal_strlit("client");
    reveal_strlit("tx");
    reveal_strlit("amount");
    assert("type"@.len() == 4 && "client"@.len() == 6 && "tx"@.len() == 2 && "amount"@.len() == 6);
    assert("client"@[0] == 'c' && "amount"@[0] == 'a');
}

/// Exchanging two columns changes nothing in what is read up to a column
/// before them or after them.
proof fn lemma_read_fields_exchanged(
    header: Seq<Seq<char>>,
    record: Seq<Seq<char>>,
    i: int,
    count: nat,
)
    requires
        0 <= i,
        i + 1 < header.len(),
        i + 1 < record.len(),
        count <= header.len(),
        count <= record.len(),
        count <= i || i + 2 <= count,
        read_fields(header, record, count) is Ok,
    ensures
        read_fields(exchanged(header, i), exchanged(record, i), count) == read_fields(
            header,
            record,
            count,
        ),
    decreases count,
{
    let names = exchanged(header, i);
    let values = exchanged(record, i);
    if count == 0 {
    } else if count == i + 2 {
        lemma_read_fields_ok_before(header, record, i as nat, count);
        lemma_read_fields_ok_before(header, record, (i + 1) as nat, count);
        lemma_read_fields_exchanged(header, record, i, i as nat);
        let fields = read_fields(header, record, i as nat)->Ok_0;
        lemma_read_field_commutes(fields, header[i], record[i], header[i + 1], record[i + 1]);
        assert(read_fields(names, values, (i + 1) as nat) == read_field(
            fields,
            names[i],
            values[i],
        ));
        assert(read_fields(header, record, (i + 1) as nat) == read_field(
            fields,
            header[i],
            record[i],
        ));
    } else {
        lemma_read_fields_ok_before(header, record, (count - 1) as nat, count);
        lemma_read_fields_exchanged(header, record, i, (count - 1) as nat);
        assert(names[count - 1] == header[count - 1]);
        assert(values[count - 1] == record[count - 1]);
    }
}

/// The order of the columns does not matter: a record that holds a
/// transaction holds the same transaction with two neighbouring columns
/// exchanged, and so in any order of its columns.
pub proof fn lemma_column_order(header: Seq<Seq<char>>, record: Seq<Seq<char>>, i: int)
    requires
        0 <= i,
        i + 1 < named_columns(header, record),
        parse_record_spec(header, record) is Ok,
    ensures
        parse_record_spec(exchanged(header, i), exchanged(record, i)) == parse_record_spec(
            header,
            record,
        ),
{
    lemma_read_fields_exchanged(header, record, i, named_columns(header, record));
}

impl ActionType {
    /// Reads the kind of an operation: one of `deposit`, `withdrawal`,
    /// `dispute`, `resolve`, `chargeback`, in any case.
    pub fn parse(text: &str) -> (kind: Option<ActionType>)
        ensures
            kind == action_type_of(text@),
    {
        proof {
            reveal_strlit("deposit");
            reveal_strlit("withdrawal");
            reveal_strlit("dispute");
            reveal_strlit("resolve");
            reveal_strlit("chargeback");
        }
        if matches_ignoring_case(text, "deposit") {
            Some(ActionType::Deposit)
        } else if matches_ignoring_case(text, "withdrawal") {
            Some(ActionType::Withdrawal)
        } else if matches_ignoring_case(text, "dispute") {
            Some(ActionType::Dispute)
        } else if matches_ignoring_case(text, "resolve") {
            Some(ActionType::Resolve)
        } else if matches_ignoring_case(text, "chargeback") {
            Some(ActionType::Chargeback)
        } else {
            None
        }
    }
}

impl Fields {
    /// Nothing read yet.
    pub fn new() -> (fields: Fields)
        ensures
            fields == no_fields(),
    {
        Fields { kind: None, amount: None, client: None, id: None }
    }

    /// Reads one column into the field that `name` names.
    pub fn read(self, name: &str, value: &str) -> (result: Result<Fields, RecordError>)
        ensures
            result == read_field(self, name@, value@),
    {
        if same_text(name, "type") {
            if self.kind.is_some() {
                return Err(RecordError::Duplicate(Field::Type));
            }
            match ActionType::parse(value) {
                Some(kind) => Ok(Fields { kind: Some(kind), ..self }),
                None => Err(RecordError::Invalid(Field::Type)),
            }
        } else if same_text(name, "client") {
            if self.client.is_some() {
                return Err(RecordError::Duplicate(Field::Client));
            }
            match parse_unsigned(value, 65535) {
                Some(client) => Ok(Fields { client: Some(client as Client), ..self }),
                None => Err(RecordError::Invalid(Field::Client)),
            }
        } else if same_text(name, "tx") {
            if self.id.is_some() {
                return Err(RecordError::Duplicate(Field::Tx));
            }
            match parse_unsigned(value, 4294967295) {
                Some(id) => Ok(Fields { id: Some(id as Id), ..self }),
                None => Err(RecordError::Invalid(Field::Tx)),
            }
        } else if same_text(name, "amount") {
            if self.amount.is_some() {
                return Err(RecordError::Duplicate(Field::Amount));
            }
            if value.is_empty() {
                return Ok(Fields { amount: Some(None), ..self });
            }
            match Money::parse(value) {
                Ok(amount) => Ok(Fields { amount: Some(Some(amount)), ..self }),
                Err(_) => Err(RecordError::Invalid(Field::Amount)),
            }
        } else {
            Ok(self)
        }
    }

    /// The transaction that the fields make.
    pub fn finish(self) -> (result: Result<Transaction, RecordError>)
        ensures
            result == assemble(self),
    {
        let kind = match self.kind {
            Some(kind) => kind,
            None => {
                return Err(RecordError::Missing(Field::Type));
            },
        };
        let client = match self.client {
            Some(client) => client,
            None => {
                return Err(RecordError::Missing(Field::Client));
            },
        };
        let id = match self.id {
            Some(id) => id,
            None => {
                return Err(RecordError::Missing(Field::Tx));
            },
        };
        let amount = match self.amount {
            Some(amount) => amount,
            None => None,
        };
        Transaction::from_parts(kind, amount, client, id)
    }
}

impl Transaction {
    /// Makes a transaction of the parts of a record, or says why they make
    /// none.
    pub fn from_parts(kind: ActionType, amount: Option<Money>, client: Client, id: Id) -> (result:
        Result<Transaction, RecordError>)
        ensures
            result == from_parts_spec(kind, amount, client, id),
    {
        match kind {
            ActionType::Deposit => match amount {
                None => Err(RecordError::Missing(Field::Amount)),
                Some(amount) => if amount.is_negative() {
                    Err(RecordError::NegativeAmount)
                } else {
                    Ok(Transaction { action: Action::Deposit { amount }, client, id })
                },
            },
            ActionType::Withdrawal => match amount {
                None => Err(RecordError::Missing(Field::Amount)),
                Some(amount) => if amount.is_negative() {
                    Err(RecordError::NegativeAmount)
                } else {
                    Ok(Transaction { action: Action::Withdrawal { amount }, client, id })
                },
            },
            ActionType::Dispute => match amount {
                Some(_) => Err(RecordError::UnexpectedAmount),
                None => Ok(Transaction { action: Action::Dispute, client, id }),
            },
            ActionType::Resolve => match amount {
                Some(_) => Err(RecordError::UnexpectedAmount),
                None => Ok(Transaction { action: Action::Resolve, client, id }),
            },
            ActionType::Chargeback => match amount {
                Some(_) => Err(RecordError::UnexpectedAmount),
                None => Ok(Transaction { action: Action::Chargeback, client, id }),
            },
        }
    }

    /// Reads a transaction from a record whose columns `header` names. The
    /// order of the columns does not matter; columns of other names are
    /// passed over.
    pub fn parse_record(header: &Vec<String>, record: &Vec<String>) -> (result: Result<
        Transaction,
        RecordError,
    >)
        ensures
            result == parse_record_spec(header.deep_view(), record.deep_view()),
    {
        let count = if header.len() <= record.len() {
            header.len()
        } else {
            record.len()
        };
        let ghost names = header.deep_view();
        let ghost values = record.deep_view();
        let mut fields = Fields::new();
        let mut i: usize = 0;
        while i < count
            invariant
                names == header.deep_view(),
                values == record.deep_view(),
                count == named_columns(names, values),
                i <= count,
                read_fields(names, values, i as nat) == Ok::<Fields, RecordError>(fields),
            decreases count - i,
        {
            assert(names[i as int] == header@[i as int]@);
            assert(values[i as int] == record@[i as int]@);
            match fields.read(header[i].as_str(), record[i].as_str()) {
                Ok(next) => {
                    fields = next;
                },
                Err(error) => {
                    proof {
                        lemma_read_fields_error_stays(names, values, (i + 1) as nat, count as nat);
                    }
                    return Err(error);
                },
            }
            i = i + 1;
        }
        fields.finish()
    }
}

} // verus!
