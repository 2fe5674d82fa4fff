//! The payment service: a ledger of authorizations and a transaction
//! counter behind three operations.

use crate::decimal::{decimal, to_decimal};
use crate::laws::law_amount_within_ceiling_is_authorized;
use crate::messages::{catalog_of, AuthorizationRequest, AuthorizationResult, CompletionRequest,
    CompletionResult, PaymentMethod};
use crate::model::{auth_code_invalid, too_much_to_pay, PaymentMethodView, RecordState, RecordView,
    ServiceView};
use crate::token::{carries_serial, fresh_nonce, lemma_serial_unique, make_token, serial_of,
    token_text};
use vstd::prelude::*;
use vstd::string::*;

verus! {

/// The ceiling of a service that is given none.
pub const DEFAULT_CEILING: u32 = 100;

/// The catalog of a service that is given none: one method, without a label.
pub open spec fn default_catalog() -> Seq<PaymentMethodView> {
    seq![PaymentMethodView { token: "alipay"@, label: None }]
}

/// One authorization as the ledger keeps it. A record is made when an
/// authorization is granted and is never removed.
struct AuthorizationRecord {
    token: String,
    amount: u32,
    state: RecordState,
    created_at: u64,
}

/// What the ledger holds of a record.
spec fn record_view(record: AuthorizationRecord) -> RecordView {
    RecordView {
        amount: record.amount as nat,
        state: record.state,
        created_at: record.created_at as nat,
    }
}

/// Whether some record is filed under `token`.
spec fn holds(records: Seq<AuthorizationRecord>, token: Seq<char>) -> bool {
    exists|i: int| 0 <= i < records.len() && (#[trigger] records[i]).token@ == token
}

/// The place of a record that is filed under `token`.
spec fn index_of(records: Seq<AuthorizationRecord>, token: Seq<char>) -> int {
    choose|i: int| 0 <= i < records.len() && (#[trigger] records[i]).token@ == token
}

/// The ledger that a list of records stands for.
spec fn ledger_of(records: Seq<AuthorizationRecord>) -> Map<Seq<char>, RecordView> {
    Map::new(
        |token: Seq<char>| holds(records, token),
        |token: Seq<char>| record_view(records[index_of(records, token)]),
    )
}

/// The number of completed records.
spec fn completed(records: Seq<AuthorizationRecord>) -> nat
    decreases records.len(),
{
    if records.len() == 0 {
        0
    } else if records.last().state == RecordState::Completed {
        completed(records.drop_last()) + 1
    } else {
        completed(records.drop_last())
    }
}

/// Each record stands at the place that its serial number names, and its
/// token carries that number.
spec fn well_numbered(records: Seq<AuthorizationRecord>) -> bool {
    forall|i: int|
        0 <= i < records.len() ==> {
            &&& (#[trigger] records[i]).created_at == i
            &&& carries_serial(records[i].token@, i as nat)
        }
}

/// No two records have the same token.
spec fn tokens_distinct(records: Seq<AuthorizationRecord>) -> bool {
    forall|i: int, j: int|
        0 <= i < records.len() && 0 <= j < records.len() && i != j ==> (#[trigger] records[i]).token@
            != (#[trigger] records[j]).token@
}

/// Records with serial numbers of their own have tokens of their own.
proof fn lemma_tokens_distinct(records: Seq<AuthorizationRecord>)
    requires
        well_numbered(records),
    ensures
        tokens_distinct(records),
{
    assert forall|i: int, j: int|
        0 <= i < records.len() && 0 <= j < records.len() && i != j implies (#[trigger] records[i]).token@
        != (#[trigger] records[j]).token@ by {
        if records[i].token@ == records[j].token@ {
            lemma_serial_unique(records[i].token@, i as nat, j as nat);
        }
    }
}

/// The ledger files each record under its own token.
proof fn lemma_entry(records: Seq<AuthorizationRecord>, i: int)
    requires
        tokens_distinct(records),
        0 <= i < records.len(),
    ensures
        ledger_of(records).dom().contains(records[i].token@),
        ledger_of(records)[records[i].token@] == record_view(records[i]),
{
    // No other record has the token of the `i`-th, so `i` is the place that
    // the ledger picks for it.
    assert(index_of(records, records[i].token@) == i);
}

/// A record under a new token adds one entry to the ledger.
proof fn lemma_push(records: Seq<AuthorizationRecord>, record: AuthorizationRecord)
    requires
        tokens_distinct(records),
        !holds(records, record.token@),
    ensures
        tokens_distinct(records.push(record)),
        ledger_of(records.push(record)) == ledger_of(records).insert(
            record.token@,
            record_view(record),
        ),
        completed(records.push(record)) == completed(records) + if record.state
            == RecordState::Completed {
            1nat
        } else {
            0nat
        },
{
    let longer = records.push(record);
    let last = records.len() as int;
    let expected = ledger_of(records).insert(record.token@, record_view(record));
    assert(longer.drop_last() =~= records);
    assert(tokens_distinct(longer)) by {
        assert forall|i: int| 0 <= i < last implies longer[i] == records[i] by {}
    }
    assert forall|token: Seq<char>| holds(longer, token) implies #[trigger] expected.dom().contains(
        token,
    ) by {
        let i = index_of(longer, token);
        if i < last {
            assert(records[i].token@ == token);
        }
    }
    assert forall|token: Seq<char>| #[trigger] expected.dom().contains(token) implies holds(
        longer,
        token,
    ) && ledger_of(longer)[token] == expected[token] by {
        let i = if token == record.token@ {
            last
        } else {
            index_of(records, token)
        };
        assert(longer[i].token@ == token);
        lemma_entry(longer, i);
        if i < last {
            lemma_entry(records, i);
        }
    }
    assert(ledger_of(longer) =~= expected);
}

/// A change to a record that keeps its token changes that one entry of the
/// ledger.
proof fn lemma_update(records: Seq<AuthorizationRecord>, i: int, record: AuthorizationRecord)
    requires
        tokens_distinct(records),
        0 <= i < records.len(),
        record.token@ == records[i].token@,
    ensures
        tokens_distinct(records.update(i, record)),
        ledger_of(records.update(i, record)) == ledger_of(records).insert(
            record.token@,
            record_view(record),
        ),
{
    let changed = records.update(i, record);
    let expected = ledger_of(records).insert(record.token@, record_view(record));
    assert forall|j: int| 0 <= j < records.len() implies (#[trigger] changed[j]).token@
        == records[j].token@ by {}
    assert(tokens_distinct(changed));
    assert forall|token: Seq<char>| holds(changed, token) implies #[trigger] expected.dom().contains(
        token,
    ) by {
        assert(records[index_of(changed, token)].token@ == token);
    }
    assert forall|token: Seq<char>| #[trigger] expected.dom().contains(token) implies holds(
        changed,
        token,
    ) && ledger_of(changed)[token] == expected[token] by {
        let j = if token == record.token@ {
            i
        } else {
            index_of(records, token)
        };
        assert(changed[j].token@ == token);
        lemma_entry(changed, j);
        if j != i {
            lemma_entry(records, j);
        }
    }
    assert(ledger_of(changed) =~= expected);
}

/// There are no more completed records than records, and fewer where one of
/// them is not completed.
proof fn lemma_completed_bound(records: Seq<AuthorizationRecord>, i: int)
    requires
        0 <= i < records.len(),
        records[i].state != RecordState::Completed,
    ensures
        completed(records) < records.len(),
    decreases records.len(),
{
    let shorter = records.drop_last();
    if i == records.len() - 1 {
        lemma_completed_at_most(shorter);
    } else {
        lemma_completed_bound(shorter, i);
    }
}

/// There are no more completed records than records.
proof fn lemma_completed_at_most(records: Seq<AuthorizationRecord>)
    ensures
        completed(records) <= records.len(),
    decreases records.len(),
{
    if records.len() > 0 {
        lemma_completed_at_most(records.drop_last());
    }
}

/// A change to one record changes the number of completed records by what
/// that record counts for.
proof fn lemma_completed_update(
    records: Seq<AuthorizationRecord>,
    i: int,
    record: AuthorizationRecord,
)
    requires
        0 <= i < records.len(),
    ensures
        completed(records.update(i, record)) + (if records[i].state == RecordState::Completed {
            1nat
        } else {
            0nat
        }) == completed(records) + (if record.state == RecordState::Completed {
            1nat
        } else {
            0nat
        }),
    decreases records.len(),
{
    let changed = records.update(i, record);
    if i == records.len() - 1 {
        assert(changed.drop_last() =~= records.drop_last());
    } else {
        assert(changed.drop_last() =~= records.drop_last().update(i, record));
        lemma_completed_update(records.drop_last(), i, record);
    }
}

/// The payment service. It owns the ledger and the transaction counter;
/// every operation that changes them takes the service by `&mut`, so no two
/// of them overlap.
pub struct PaymentService {
    ceiling: u32,
    ledger: Vec<AuthorizationRecord>,
    issued: u64,
    catalog: Vec<PaymentMethod>,
}

impl View for PaymentService {
    type V = ServiceView;

    closed spec fn view(&self) -> ServiceView {
        ServiceView {
            ceiling: self.ceiling as nat,
            ledger: ledger_of(self.ledger@),
            granted: self.ledger@.len(),
            issued: self.issued as nat,
            catalog: catalog_of(self.catalog@),
        }
    }
}

impl PaymentService {
    /// The invariant of the service: the catalog is not empty, the `i`-th
    /// record of the ledger has the serial number `i`, and the transaction
    /// counter is the number of completed records.
    pub closed spec fn wf(&self) -> bool {
        &&& self.catalog@.len() > 0
        &&& well_numbered(self.ledger@)
        &&& self.issued as nat == completed(self.ledger@)
    }

    /// A well-formed service stands for a well-formed state.
    pub proof fn lemma_view_wf(&self)
        requires
            self.wf(),
        ensures
            self@.wf(),
    {
        let records = self.ledger@;
        lemma_tokens_distinct(records);
        assert forall|token: Seq<char>| #[trigger] self@.ledger.dom().contains(token) implies {
            &&& self@.ledger[token].created_at < self@.granted
            &&& carries_serial(token, self@.ledger[token].created_at)
        } by {
            let i = index_of(records, token);
            lemma_entry(records, i);
        }
    }

    /// A service with the given ceiling, the default catalog, an empty ledger
    /// and no transaction issued.
    pub fn new(ceiling: u32) -> (service: PaymentService)
        ensures
            service.wf(),
            service@ == ServiceView::initial(ceiling as nat, default_catalog()),
    {
        let mut catalog: Vec<PaymentMethod> = Vec::new();
        catalog.push(PaymentMethod { token: String::from_str("alipay"), label: None });
        let service = PaymentService { ceiling, ledger: Vec::new(), issued: 0, catalog };
        assert(service@.catalog =~= default_catalog());
        assert(service@.ledger =~= Map::empty());
        service
    }

    /// A service with the given ceiling and catalog, or nothing where the
    /// catalog is empty.
    pub fn with_catalog(ceiling: u32, catalog: Vec<PaymentMethod>) -> (service: Option<
        PaymentService,
    >)
        ensures
            service is Some <==> catalog@.len() > 0,
            service matches Some(service) ==> service.wf() && service@ == ServiceView::initial(
                ceiling as nat,
                catalog_of(catalog@),
            ),
    {
        if catalog.len() == 0 {
            return None;
        }
        let service = PaymentService { ceiling, ledger: Vec::new(), issued: 0, catalog };
        assert(service@.ledger =~= Map::empty());
        Some(service)
    }

    /// The largest amount that this service authorizes.
    pub fn ceiling(&self) -> (ceiling: u32)
        ensures
            ceiling as nat == self@.ceiling,
    {
        self.ceiling
    }

    /// The place of the record filed under `token`, if there is one: the
    /// place that the token's serial number names, where the record there
    /// has that very token.
    fn find(&self, token: &String) -> (found: Option<usize>)
        requires
            self.wf(),
        ensures
            match found {
                Some(i) => i < self.ledger@.len() && self.ledger@[i as int].token@ == token@,
                None => !holds(self.ledger@, token@),
            },
    {
        let named = serial_of(token.as_str());
        proof {
            if holds(self.ledger@, token@) {
                let i = index_of(self.ledger@, token@);
                let nonce = choose|nonce: nat| token@ == #[trigger] token_text(i as nat, nonce);
                assert(i < self.ledger.len());
                assert(named == Some(i as u64));
            }
        }
        if let Some(serial) = named {
            if serial < self.ledger.len() as u64 {
                let i = serial as usize;
                if self.ledger[i].token == *token {
                    return Some(i);
                }
            }
        }
        None
    }

    /// Authorizes `request.amount` with a token made of the next serial
    /// number and `nonce`: the state and the answer are those of the model.
    pub fn authorize_with_nonce(&mut self, request: &AuthorizationRequest, nonce: u64) -> (result:
        AuthorizationResult)
        requires
            old(self).wf(),
        ensures
            final(self).wf(),
            final(self)@ == old(self)@.authorize(request.amount as nat, nonce as nat).0,
            result@ == old(self)@.authorize(request.amount as nat, nonce as nat).1,
    {
        if request.amount > self.ceiling {
            return AuthorizationResult {
                success: false,
                auth_token: None,
                fail_reason: Some(String::from_str("too much to pay")),
            };
        }
        let serial = self.ledger.len() as u64;
        let token = make_token(serial, nonce);
        let answer = token.clone();
        let record = AuthorizationRecord {
            token,
            amount: request.amount,
            state: RecordState::Pending,
            created_at: serial,
        };
        proof {
            let records = self.ledger@;
            lemma_tokens_distinct(records);
            assert(record.token@ == token_text(serial as nat, nonce as nat));
            if holds(records, record.token@) {
                let i = index_of(records, record.token@);
                lemma_serial_unique(record.token@, i as nat, serial as nat);
            }
            lemma_push(records, record);
        }
        self.ledger.push(record);
        AuthorizationResult { success: true, auth_token: Some(answer), fail_reason: None }
    }

    /// Authorizes `request.amount`. An amount above the ceiling is refused
    /// with the reason "too much to pay", and nothing changes. Any other
    /// amount is answered with a token that the ledger did not hold, made of
    /// the next serial number and a nonce drawn for it, and the ledger gets a
    /// pending record under that token.
    pub fn authorize(&mut self, request: &AuthorizationRequest) -> (result: AuthorizationResult)
        requires
            old(self).wf(),
        ensures
            final(self).wf(),
            exists|nonce: nat|
                {
                    &&& final(self)@ == (#[trigger] old(self)@.authorize(
                        request.amount as nat,
                        nonce,
                    )).0
                    &&& result@ == old(self)@.authorize(request.amount as nat, nonce).1
                },
            result.success <==> request.amount <= old(self)@.ceiling,
            result.success ==> {
                &&& result.auth_token matches Some(token)
                &&& token@.len() > 0
                &&& !old(self)@.ledger.dom().contains(token@)
                &&& final(self)@.redeemable(token@)
                &&& final(self)@.ledger[token@].amount == request.amount
                &&& result.fail_reason is None
            },
            !result.success ==> {
                &&& result.auth_token is None
                &&& result@.fail_reason == Some(too_much_to_pay())
                &&& final(self)@ == old(self)@
            },
    {
        let nonce = fresh_nonce(self.ledger.len() as u64);
        proof {
            self.lemma_view_wf();
            if request.amount <= self@.ceiling {
                law_amount_within_ceiling_is_authorized(
                    self@,
                    request.amount as nat,
                    nonce as nat,
                );
            }
        }
        self.authorize_with_nonce(request, nonce)
    }

    /// Completes the payment that `request.auth_token` authorized. A token
    /// that is in the ledger and pending is marked completed and answered
    /// with the next value of the transaction counter, in decimal. Any other
    /// token is refused with the reason "auth code invalid", and nothing
    /// changes.
    pub fn complete(&mut self, request: &CompletionRequest) -> (result: CompletionResult)
        requires
            old(self).wf(),
        ensures
            final(self).wf(),
            final(self)@ == old(self)@.complete(request.auth_token@).0,
            result@ == old(self)@.complete(request.auth_token@).1,
            result.success <==> old(self)@.redeemable(request.auth_token@),
            result.success ==> {
                &&& result@.txid == Some(decimal(old(self)@.issued + 1))
                &&& result.fail_reason is None
                &&& final(self)@.issued == old(self)@.issued + 1
                &&& final(self)@.ledger[request.auth_token@].state == RecordState::Completed
            },
            !result.success ==> {
                &&& result.txid is None
                &&& result@.fail_reason == Some(auth_code_invalid())
                &&& final(self)@ == old(self)@
            },
    {
        let found = self.find(&request.auth_token);
        proof {
            lemma_tokens_distinct(self.ledger@);
        }
        if let Some(i) = found {
            proof {
                lemma_entry(self.ledger@, i as int);
            }
            if self.ledger[i].state == RecordState::Pending {
                proof {
                    let records = self.ledger@;
                    let record = AuthorizationRecord {
                        state: RecordState::Completed,
                        ..records[i as int]
                    };
                    lemma_completed_bound(records, i as int);
                    lemma_completed_update(records, i as int, record);
                    lemma_update(records, i as int, record);
                    assert(self.issued < self.ledger.len());
                }
                self.ledger[i].state = RecordState::Completed;
                self.issued = self.issued + 1;
                let txid = to_decimal(self.issued);
                return CompletionResult { success: true, txid: Some(txid), fail_reason: None };
            }
        }
        CompletionResult {
            success: false,
            txid: None,
            fail_reason: Some(String::from_str("auth code invalid")),
        }
    }

    /// Times out the authorization that `auth_token` names. A token that is
    /// in the ledger and pending is marked expired, for good, and the answer
    /// is `true`. Any other token changes nothing.
    pub fn expire(&mut self, auth_token: &str) -> (expired: bool)
        requires
            old(self).wf(),
        ensures
            final(self).wf(),
            final(self)@ == old(self)@.expire(auth_token@).0,
            expired == old(self)@.expire(auth_token@).1,
            expired <==> old(self)@.redeemable(auth_token@),
            expired ==> final(self)@.ledger[auth_token@].state == RecordState::Expired,
            !expired ==> final(self)@ == old(self)@,
    {
        let token = String::from_str(auth_token);
        let found = self.find(&token);
        proof {
            lemma_tokens_distinct(self.ledger@);
        }
        if let Some(i) = found {
            proof {
                lemma_entry(self.ledger@, i as int);
            }
            if self.ledger[i].state == RecordState::Pending {
                proof {
                    let records = self.ledger@;
                    let record = AuthorizationRecord {
                        state: RecordState::Expired,
                        ..records[i as int]
                    };
                    lemma_completed_update(records, i as int, record);
                    lemma_update(records, i as int, record);
                }
                self.ledger[i].state = RecordState::Expired;
                return true;
            }
        }
        false
    }

    /// The catalog of payment methods, as configured. The service is not
    /// changed.
    pub fn get_payment_methods(&self) -> (methods: Vec<PaymentMethod>)
        requires
            self.wf(),
        ensures
            methods@.len() > 0,
            catalog_of(methods@) == self@.catalog,
    {
        let mut methods: Vec<PaymentMethod> = Vec::new();
        let mut i: usize = 0;
        while i < self.catalog.len()
            invariant
                i <= self.catalog@.len(),
                methods@ == self.catalog@.subrange(0, i as int),
            decreases self.catalog@.len() - i,
        {
            methods.push(self.catalog[i].duplicate());
            i = i + 1;
        }
        methods
    }
}

impl Default for PaymentService {
    /// The service with the default ceiling and the default catalog.
    fn default() -> (service: PaymentService)
        ensures
            service.wf(),
            service@ == ServiceView::initial(DEFAULT_CEILING as nat, default_catalog()),
    {
        PaymentService::new(DEFAULT_CEILING)
    }
}

} // verus!
