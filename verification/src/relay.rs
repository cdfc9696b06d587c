//! A scripted stand-in for the Bitcoin relay, used by tests: it holds a
//! queue of expected requests with the responses to hand back, answers each
//! call by taking the front expectation, and is specified to do exactly
//! that. The real relay lives outside the library; the four operations
//! here mirror its interface (send to address, query a transaction, send a
//! transaction, watch an address).

use vstd::prelude::*;

use crate::tx::{BitcoinTx, TxV};
use crate::types::{Address, TxId};

verus! {

/// Connection settings of a Bitcoin RPC endpoint.
pub struct BitcoinRpcConfig {
    pub host: String,
    pub username: Option<String>,
    pub password: Option<String>,
}

/// A relay operation that failed on the wire. Relay failures are owned by
/// the relay and retried by its caller; the core never treats them as
/// state changes.
#[derive(Clone, Copy, Debug, PartialEq, Eq, Structural)]
pub enum RelayError {
    Unavailable,
}

/// What the relay reports about a broadcast transaction.
pub struct TransactionInfo {
    pub tx: BitcoinTx,
    pub confirmations: u64,
}

#[verifier::ext_equal]
pub struct TransactionInfoV {
    pub tx: TxV,
    pub confirmations: u64,
}

impl View for TransactionInfo {
    type V = TransactionInfoV;

    open spec fn view(&self) -> TransactionInfoV {
        TransactionInfoV { tx: self.tx@, confirmations: self.confirmations }
    }
}

/// One request the fake relay may be asked to serve.
pub enum FakeRelayRequest {
    SendToAddress { addr: Address, satoshis: u64 },
    TransactionInfo { id: TxId },
    SendTransaction { transaction: BitcoinTx },
    WatchAddress { addr: Address, rescan: bool },
}

#[verifier::ext_equal]
pub enum RelayRequestV {
    SendToAddress { addr: Seq<u8>, satoshis: u64 },
    TransactionInfo { id: Seq<u8> },
    SendTransaction { transaction: TxV },
    WatchAddress { addr: Seq<u8>, rescan: bool },
}

impl View for FakeRelayRequest {
    type V = RelayRequestV;

    open spec fn view(&self) -> RelayRequestV {
        match self {
            FakeRelayRequest::SendToAddress { addr, satoshis } => RelayRequestV::SendToAddress {
                addr: addr@,
                satoshis: *satoshis,
            },
            FakeRelayRequest::TransactionInfo { id } => RelayRequestV::TransactionInfo {
                id: id@,
            },
            FakeRelayRequest::SendTransaction { transaction } => RelayRequestV::SendTransaction {
                transaction: transaction@,
            },
            FakeRelayRequest::WatchAddress { addr, rescan } => RelayRequestV::WatchAddress {
                addr: addr@,
                rescan: *rescan,
            },
        }
    }
}

/// The canned answer for one request.
pub enum FakeRelayResponse {
    SendToAddress(Result<BitcoinTx, RelayError>),
    TransactionInfo(Result<Option<TransactionInfo>, RelayError>),
    SendTransaction(Result<TxId, RelayError>),
    WatchAddress(Result<(), RelayError>),
}

#[verifier::ext_equal]
pub enum RelayResponseV {
    SendToAddress(Result<TxV, RelayError>),
    TransactionInfo(Result<Option<TransactionInfoV>, RelayError>),
    SendTransaction(Result<Seq<u8>, RelayError>),
    WatchAddress(Result<(), RelayError>),
}

impl View for FakeRelayResponse {
    type V = RelayResponseV;

    open spec fn view(&self) -> RelayResponseV {
        match self {
            FakeRelayResponse::SendToAddress(r) => RelayResponseV::SendToAddress(
                match r {
                    Result::Ok(t) => Result::Ok(t@),
                    Result::Err(e) => Result::Err(*e),
                },
            ),
            FakeRelayResponse::TransactionInfo(r) => RelayResponseV::TransactionInfo(
                match r {
                    Result::Ok(Option::Some(info)) => Result::Ok(Option::Some(info@)),
                    Result::Ok(Option::None) => Result::Ok(Option::None),
                    Result::Err(e) => Result::Err(*e),
                },
            ),
            FakeRelayResponse::SendTransaction(r) => RelayResponseV::SendTransaction(
                match r {
                    Result::Ok(id) => Result::Ok(id@),
                    Result::Err(e) => Result::Err(*e),
                },
            ),
            FakeRelayResponse::WatchAddress(r) => RelayResponseV::WatchAddress(*r),
        }
    }
}

/// One scripted exchange: the request the test expects the code under test
/// to make, and the response to hand back.
pub struct Expectation {
    pub request: FakeRelayRequest,
    pub response: FakeRelayResponse,
}

#[verifier::ext_equal]
pub struct ExpectationV {
    pub request: RelayRequestV,
    pub response: RelayResponseV,
}

impl View for Expectation {
    type V = ExpectationV;

    open spec fn view(&self) -> ExpectationV {
        ExpectationV { request: self.request@, response: self.response@ }
    }
}

/// The queue of scripted exchanges a test arms the fake relay with.
pub struct TestRequests {
    pub expectations: Vec<Expectation>,
}

impl TestRequests {
    pub open spec fn queue(&self) -> Seq<ExpectationV> {
        self.expectations@.map_values(|e: Expectation| e@)
    }

    pub fn new() -> (r: TestRequests)
        ensures
            r.queue() == Seq::<ExpectationV>::empty(),
    {
        let r = TestRequests { expectations: Vec::new() };
        proof {
            assert(r.queue() =~= Seq::<ExpectationV>::empty());
        }
        r
    }

    /// Appends scripted exchanges to the end of the queue.
    pub fn expect(&mut self, requests: Vec<Expectation>)
        ensures
            final(self).queue() == old(self).queue() + requests@.map_values(
                |e: Expectation| e@,
            ),
    {
        let ghost q0 = self.queue();
        let ghost rv = requests@.map_values(|e: Expectation| e@);
        let rest = requests;
        proof {
            assert(q0 + rv.subrange(0, 0) =~= q0);
        }
        let mut i: usize = 0;
        let n = rest.len();
        while i < n
            invariant
                i <= n,
                n == rest@.len(),
                rv == rest@.map_values(|e: Expectation| e@),
                self.queue() == q0 + rv.subrange(0, i as int),
            decreases n - i,
        {
            proof {
                assert(rv[i as int] == rest@[i as int]@);
            }
            let e = &rest[i];
            let d = Expectation {
                request: dup_request(&e.request),
                response: dup_response(&e.response),
            };
            proof {
                assert(d@ =~= rv[i as int]);
            }
            self.expectations.push(d);
            proof {
                assert(rv.subrange(0, i + 1) =~= rv.subrange(0, i as int).push(rv[i as int]));
                assert(self.expectations@.map_values(|e2: Expectation| e2@) =~= (q0 + rv.subrange(
                    0,
                    i as int,
                )).push(rv[i as int]));
                assert(self.queue() =~= q0 + rv.subrange(0, i + 1));
            }
            i += 1;
        }
        proof {
            assert(rv.subrange(0, rv.len() as int) =~= rv);
        }
    }
}

/// Exact copy of a request.
fn dup_request(r: &FakeRelayRequest) -> (d: FakeRelayRequest)
    ensures
        d@ == r@,
{
    match r {
        FakeRelayRequest::SendToAddress { addr, satoshis } => FakeRelayRequest::SendToAddress {
            addr: addr.duplicate(),
            satoshis: *satoshis,
        },
        FakeRelayRequest::TransactionInfo { id } => FakeRelayRequest::TransactionInfo {
            id: id.duplicate(),
        },
        FakeRelayRequest::SendTransaction { transaction } => FakeRelayRequest::SendTransaction {
            transaction: transaction.duplicate(),
        },
        FakeRelayRequest::WatchAddress { addr, rescan } => FakeRelayRequest::WatchAddress {
            addr: addr.duplicate(),
            rescan: *rescan,
        },
    }
}

/// Exact copy of a response.
fn dup_response(r: &FakeRelayResponse) -> (d: FakeRelayResponse)
    ensures
        d@ == r@,
{
    match r {
        FakeRelayResponse::SendToAddress(inner) => FakeRelayResponse::SendToAddress(
            match inner {
                Result::Ok(t) => Result::Ok(t.duplicate()),
                Result::Err(e) => Result::Err(*e),
            },
        ),
        FakeRelayResponse::TransactionInfo(inner) => FakeRelayResponse::TransactionInfo(
            match inner {
                Result::Ok(Option::Some(info)) => Result::Ok(
                    Option::Some(
                        TransactionInfo { tx: info.tx.duplicate(), confirmations: info.confirmations },
                    ),
                ),
                Result::Ok(Option::None) => Result::Ok(Option::None),
                Result::Err(e) => Result::Err(*e),
            },
        ),
        FakeRelayResponse::SendTransaction(inner) => FakeRelayResponse::SendTransaction(
            match inner {
                Result::Ok(id) => Result::Ok(id.duplicate()),
                Result::Err(e) => Result::Err(*e),
            },
        ),
        FakeRelayResponse::WatchAddress(inner) => FakeRelayResponse::WatchAddress(*inner),
    }
}

/// The fake relay: answers each operation with the front expectation's
/// response, provided the operation matches the expected request.
pub struct FakeBtcRelay {
    pub requests: TestRequests,
    pub rpc: BitcoinRpcConfig,
}

impl FakeBtcRelay {
    /// Takes the front expectation off the queue and returns its response.
    fn take_front(&mut self) -> (r: FakeRelayResponse)
        requires
            old(self).requests.queue().len() > 0,
        ensures
            r@ == old(self).requests.queue()[0].response,
            final(self).requests.queue() == old(self).requests.queue().subrange(
                1,
                old(self).requests.queue().len() as int,
            ),
    {
        let ghost q0 = self.requests.queue();
        let e = self.requests.expectations.remove(0);
        proof {
            assert(e@ == q0[0]);
            assert(self.requests.queue() =~= q0.subrange(1, q0.len() as int));
        }
        e.response
    }

    pub fn send_to_address(&mut self, addr: &Address, satoshis: u64) -> (r: Result<
        BitcoinTx,
        RelayError,
    >)
        requires
            old(self).requests.queue().len() > 0,
            old(self).requests.queue()[0].request == (RelayRequestV::SendToAddress {
                addr: addr@,
                satoshis,
            }),
            old(self).requests.queue()[0].response is SendToAddress,
        ensures
            final(self).requests.queue() == old(self).requests.queue().subrange(
                1,
                old(self).requests.queue().len() as int,
            ),
            (match r {
                Result::Ok(t) => Result::Ok(t@),
                Result::Err(e) => Result::Err(e),
            }) == old(self).requests.queue()[0].response->SendToAddress_0,
    {
        let resp = self.take_front();
        match resp {
            FakeRelayResponse::SendToAddress(inner) => inner,
            _ => {
                proof {
                    assert(false);
                }
                Result::Err(RelayError::Unavailable)
            },
        }
    }

    pub fn transaction_info(&mut self, id: &TxId) -> (r: Result<
        Option<TransactionInfo>,
        RelayError,
    >)
        requires
            old(self).requests.queue().len() > 0,
            old(self).requests.queue()[0].request == (RelayRequestV::TransactionInfo {
                id: id@,
            }),
            old(self).requests.queue()[0].response is TransactionInfo,
        ensures
            final(self).requests.queue() == old(self).requests.queue().subrange(
                1,
                old(self).requests.queue().len() as int,
            ),
            (match r {
                Result::Ok(Option::Some(info)) => Result::Ok(Option::Some(info@)),
                Result::Ok(Option::None) => Result::Ok(Option::<TransactionInfoV>::None),
                Result::Err(e) => Result::Err(e),
            }) == old(self).requests.queue()[0].response->TransactionInfo_0,
    {
        let resp = self.take_front();
        match resp {
            FakeRelayResponse::TransactionInfo(inner) => inner,
            _ => {
                proof {
                    assert(false);
                }
                Result::Err(RelayError::Unavailable)
            },
        }
    }

    pub fn send_transaction(&mut self, transaction: &BitcoinTx) -> (r: Result<TxId, RelayError>)
        requires
            old(self).requests.queue().len() > 0,
            old(self).requests.queue()[0].request == (RelayRequestV::SendTransaction {
                transaction: transaction@,
            }),
            old(self).requests.queue()[0].response is SendTransaction,
        ensures
            final(self).requests.queue() == old(self).requests.queue().subrange(
                1,
                old(self).requests.queue().len() as int,
            ),
            (match r {
                Result::Ok(id) => Result::Ok(id@),
                Result::Err(e) => Result::Err(e),
            }) == old(self).requests.queue()[0].response->SendTransaction_0,
    {
        let resp = self.take_front();
        match resp {
            FakeRelayResponse::SendTransaction(inner) => inner,
            _ => {
                proof {
                    assert(false);
                }
                Result::Err(RelayError::Unavailable)
            },
        }
    }

    pub fn watch_address(&mut self, addr: &Address, rescan: bool) -> (r: Result<(), RelayError>)
        requires
            old(self).requests.queue().len() > 0,
            old(self).requests.queue()[0].request == (RelayRequestV::WatchAddress {
                addr: addr@,
                rescan,
            }),
            old(self).requests.queue()[0].response is WatchAddress,
        ensures
            final(self).requests.queue() == old(self).requests.queue().subrange(
                1,
                old(self).requests.queue().len() as int,
            ),
            r == old(self).requests.queue()[0].response->WatchAddress_0,
    {
        let resp = self.take_front();
        match resp {
            FakeRelayResponse::WatchAddress(inner) => inner,
            _ => {
                proof {
                    assert(false);
                }
                Result::Err(RelayError::Unavailable)
            },
        }
    }

    /// The RPC settings the relay was configured with.
    pub fn config(&self) -> (r: &BitcoinRpcConfig)
        ensures
            r == &self.rpc,
    {
        &self.rpc
    }
}

} // verus!
