//! The miner's workflows. Each remote call (chain, content store) is made by
//! the host; the decisions between them are made here, from the state and
//! what the last call returned, and name the next call as a `Step`.
//!
//! Write: admission, store the file, record the placement and reserve its
//! space, confirm the order on chain. Delete: remove the placement and free
//! its space, unpin the blob, report the deletion on chain.

use vstd::prelude::*;
use crate::commitment::{commitment_of, commitment, same_root};
use crate::config::Conf;
use crate::error::{ChainError, IpseError};
use crate::meta::{
    MetaStore, MetaView, has_order, handle_used, meta_wf, placed, unplaced, row_of,
    lemma_placed_wf,
};
use crate::sector::{SECTOR_SIZE, first_fit, allocatable, lemma_first_fit};

verus! {

/// What the host must do next in a workflow.
#[derive(Debug, PartialEq, Eq)]
pub enum Step {
    /// Write the file to the content store and pass the outcome to
    /// `Miner::write_stored`.
    StoreFile,
    /// Unpin the just-written blob, whatever that returns, and report `error`.
    DiscardBlob { handle: String, error: IpseError },
    /// Confirm the order on chain with the handle and pass the outcome to
    /// `confirmed`.
    ConfirmOrder { order: u64, handle: String },
    /// Unpin the blob of a removed placement and pass the outcome to
    /// `blob_removed`.
    RemoveBlob { order: u64, handle: String },
    /// Report the deletion of the order to the chain and pass the outcome to
    /// `chain_deleted`.
    NotifyChain { order: u64 },
    /// The workflow is over, with this result.
    Done(Result<(), IpseError>),
}

/// What the host must do next at startup.
#[derive(Debug, Clone, PartialEq, Eq)]
pub enum Registration {
    /// The identity is on chain; requests may be served.
    Ready,
    /// Submit the identity and pass the outcome to `registration_submitted`.
    Submit,
    /// Registration cannot proceed; the process must not serve requests.
    Failed(IpseError),
}

/// The root recorded on chain, as bytes.
pub open spec fn root_view(root: Option<[u8; 32]>) -> Option<Seq<u8>> {
    match root {
        Some(r) => Some(r@),
        None => None,
    }
}

/// The verdict on a file whose commitment is `computed`, against the root of
/// its order (`None` when the chain has no such order).
pub open spec fn verdict(root: Option<Seq<u8>>, computed: Seq<u8>) -> Result<(), IpseError> {
    match root {
        None => Err(IpseError::OrderNotFound),
        Some(r) => if computed == r {
            Ok(())
        } else {
            Err(IpseError::CommitmentMismatch)
        },
    }
}

/// Admission of a file against the root of its order.
pub open spec fn admission(root: Option<Seq<u8>>, file: Seq<u8>) -> Result<(), IpseError> {
    verdict(root, commitment_of(file))
}

/// Judges a computed commitment against the root of the order.
pub fn check_commitment(root: &Option<[u8; 32]>, computed: &[u8; 32]) -> (r: Result<(), IpseError>)
    ensures
        r == verdict(root_view(*root), computed@),
{
    match root {
        None => Err(IpseError::OrderNotFound),
        Some(recorded) => if same_root(computed, recorded) {
            Ok(())
        } else {
            Err(IpseError::CommitmentMismatch)
        },
    }
}

/// Admits a file for the order whose recorded root is `root` (`None` when the
/// chain has no such order): `OrderNotFound`, `CommitmentMismatch`, or success.
/// Reads nothing but its arguments and changes nothing.
pub fn check_admission(root: &Option<[u8; 32]>, file: &Vec<u8>) -> (r: Result<(), IpseError>)
    ensures
        r == admission(root_view(*root), file@),
{
    match root {
        None => Err(IpseError::OrderNotFound),
        Some(_) => {
            let computed = commitment(file);
            check_commitment(root, &computed)
        },
    }
}

/// First step of a write: admission decides whether the file is stored.
pub fn write_begin(root: &Option<[u8; 32]>, file: &Vec<u8>) -> (r: Step)
    ensures
        admission(root_view(*root), file@) is Ok ==> r == Step::StoreFile,
        admission(root_view(*root), file@) is Err ==> r == Step::Done(
            admission(root_view(*root), file@),
        ),
{
    match check_admission(root, file) {
        Ok(()) => Step::StoreFile,
        Err(e) => Step::Done(Err(e)),
    }
}

/// Last step of a write: the chain's answer to the confirmation. A failure
/// leaves the placement in place and is reported as `ConfirmationPending`, so
/// that only the confirmation needs to be repeated.
pub fn confirmed(result: Result<(), ChainError>) -> (r: Step)
    ensures
        result is Ok ==> r == Step::Done(Ok(())),
        result is Err ==> r == Step::Done(Err(IpseError::ConfirmationPending(result->Err_0))),
{
    match result {
        Ok(()) => Step::Done(Ok(())),
        Err(e) => Step::Done(Err(IpseError::ConfirmationPending(e))),
    }
}

/// The content store's answer to unpinning a removed placement's blob.
pub fn blob_removed(order: u64, result: Result<(), String>) -> (r: Step)
    ensures
        result is Ok ==> r == (Step::NotifyChain { order }),
        result is Err ==> r == Step::Done(Err(IpseError::Store(result->Err_0))),
{
    match result {
        Ok(()) => Step::NotifyChain { order },
        Err(e) => Step::Done(Err(IpseError::Store(e))),
    }
}

/// The chain's answer to the report of a deletion.
pub fn chain_deleted(result: Result<(), ChainError>) -> (r: Step)
    ensures
        result is Ok ==> r == Step::Done(Ok(())),
        result is Err ==> r == Step::Done(Err(IpseError::Chain(result->Err_0))),
{
    match result {
        Ok(()) => Step::Done(Ok(())),
        Err(e) => Step::Done(Err(IpseError::Chain(e))),
    }
}

/// Startup: the chain's answer to whether the identity is registered.
pub fn registration_check(registered: Result<bool, ChainError>) -> (r: Registration)
    ensures
        registered == Ok::<bool, ChainError>(true) ==> r == Registration::Ready,
        registered == Ok::<bool, ChainError>(false) ==> r == Registration::Submit,
        registered is Err ==> r == Registration::Failed(IpseError::Chain(registered->Err_0)),
{
    match registered {
        Ok(true) => Registration::Ready,
        Ok(false) => Registration::Submit,
        Err(e) => Registration::Failed(IpseError::Chain(e)),
    }
}

/// Startup: the chain's answer to the registration. A chain that already
/// knows the identity is no failure.
pub fn registration_submitted(result: Result<(), ChainError>) -> (r: Registration)
    ensures
        result is Ok ==> r == Registration::Ready,
        result == Err::<(), ChainError>(ChainError::AlreadyRegistered) ==> r
            == Registration::Ready,
        result is Err && result->Err_0 != ChainError::AlreadyRegistered ==> r
            == Registration::Failed(IpseError::Chain(result->Err_0)),
{
    match result {
        Ok(()) => Registration::Ready,
        Err(ChainError::AlreadyRegistered) => Registration::Ready,
        Err(e) => Registration::Failed(IpseError::Chain(e)),
    }
}

/// The end of a write whose placement could not be made: the blob is
/// discarded unless another placement holds the same content.
pub open spec fn rejected(handle: String, error: IpseError, shared: bool) -> Step {
    if shared {
        Step::Done(Err(error))
    } else {
        Step::DiscardBlob { handle, error }
    }
}

/// The identity the miner registers on chain.
#[derive(Debug, Clone)]
pub struct MinerIdentity {
    pub nickname: String,
    pub region: String,
    pub url: String,
    pub capacity: u64,
    pub unit_price: u64,
}

/// The miner: its identity and its metadata store.
pub struct Miner {
    identity: MinerIdentity,
    meta: MetaStore,
}

impl View for Miner {
    type V = MetaView;

    closed spec fn view(&self) -> MetaView {
        self.meta@
    }
}

impl Miner {
    /// The metadata store is well formed.
    pub closed spec fn wf(&self) -> bool {
        self.meta.wf()
    }

    /// The identity the miner was built with.
    pub closed spec fn spec_identity(&self) -> MinerIdentity {
        self.identity
    }

    /// A miner with the identity of `cfg` over the metadata `meta`.
    pub fn new(cfg: Conf, meta: MetaStore) -> (r: Miner)
        requires
            meta.wf(),
        ensures
            r.wf(),
            r@ == meta@,
            r.spec_identity().nickname@ == cfg.nickname@,
            r.spec_identity().region@ == cfg.region@,
            r.spec_identity().url@ == cfg.url@,
            r.spec_identity().capacity == cfg.capacity,
            r.spec_identity().unit_price == cfg.unit_price,
    {
        let identity = MinerIdentity {
            nickname: cfg.nickname,
            region: cfg.region,
            url: cfg.url,
            capacity: cfg.capacity,
            unit_price: cfg.unit_price,
        };
        Miner { identity, meta }
    }

    /// The identity to register.
    pub fn identity(&self) -> (r: &MinerIdentity)
        ensures
            *r == self.spec_identity(),
    {
        &self.identity
    }

    /// The metadata store.
    pub fn meta(&self) -> (r: &MetaStore)
        requires
            self.wf(),
        ensures
            r.wf(),
            r@ == self@,
    {
        &self.meta
    }

    /// A delete: removes the placement of `order` and gives its space back,
    /// both or neither. Without a placement there is nothing to do and no
    /// remote call is asked for. Otherwise the blob is unpinned next, unless
    /// another placement still holds the same content, in which case the
    /// chain is told at once.
    pub fn delete_placement(&mut self, order: u64) -> (r: Step)
        requires
            old(self).wf(),
        ensures
            final(self).wf(),
            meta_wf(final(self)@),
            final(self)@ == unplaced(old(self)@, order),
            !has_order(old(self)@.rows, order) ==> r == Step::Done(Ok(())),
            has_order(old(self)@.rows, order) ==> match r {
                Step::RemoveBlob { order: o, handle } => o == order && handle@ == old(
                    self,
                )@.rows[row_of(old(self)@.rows, order)].handle && !handle_used(
                    final(self)@.rows,
                    handle@,
                ),
                Step::NotifyChain { order: o } => o == order && handle_used(
                    final(self)@.rows,
                    old(self)@.rows[row_of(old(self)@.rows, order)].handle,
                ),
                _ => false,
            },
    {
        match self.meta.remove_placement(order) {
            None => Step::Done(Ok(())),
            Some(d) => {
                if self.meta.handle_in_use(&d.file_url) {
                    Step::NotifyChain { order }
                } else {
                    Step::RemoveBlob { order, handle: d.file_url }
                }
            },
        }
    }

    /// A write after the content store's answer: records the placement of
    /// `length` bytes of `order` and reserves its space, both or neither.
    /// A store failure is reported as `Store`; a placement that cannot be made
    /// (`DuplicateOrder`, `AllocationExhausted`) has the blob discarded, unless
    /// another placement holds the same content.
    pub fn write_stored(&mut self, order: u64, length: u64, stored: Result<String, String>) -> (r:
        Step)
        requires
            old(self).wf(),
        ensures
            final(self).wf(),
            meta_wf(final(self)@),
            stored is Err ==> r == Step::Done(Err(IpseError::Store(stored->Err_0))) && final(self)@
                == old(self)@,
            stored is Ok && has_order(old(self)@.rows, order) ==> final(self)@ == old(self)@ && r
                == rejected(
                stored->Ok_0,
                IpseError::DuplicateOrder,
                handle_used(old(self)@.rows, stored->Ok_0@),
            ),
            stored is Ok && !has_order(old(self)@.rows, order) && !allocatable(
                old(self)@.remains,
                length as int,
            ) ==> final(self)@ == old(self)@ && r == rejected(
                stored->Ok_0,
                IpseError::AllocationExhausted,
                handle_used(old(self)@.rows, stored->Ok_0@),
            ),
            stored is Ok && !has_order(old(self)@.rows, order) && allocatable(
                old(self)@.remains,
                length as int,
            ) ==> final(self)@ == placed(old(self)@, order, length, stored->Ok_0@) && r == (
            Step::ConfirmOrder { order, handle: stored->Ok_0 }),
    {
        proof {
            self.meta.lemma_wf();
        }
        match stored {
            Err(e) => Step::Done(Err(IpseError::Store(e))),
            Ok(handle) => {
                let h2 = handle.clone();
                match self.meta.put_placement(order, length, handle) {
                    Ok(_) => Step::ConfirmOrder { order, handle: h2 },
                    Err(e) => {
                        if self.meta.handle_in_use(&h2) {
                            Step::Done(Err(e))
                        } else {
                            Step::DiscardBlob { handle: h2, error: e }
                        }
                    },
                }
            },
        }
    }
}

/// The DELETE request for order `id`: the local part of the delete workflow.
pub fn delete_order(miner: &mut Miner, id: usize) -> (r: Step)
    requires
        old(miner).wf(),
    ensures
        final(miner).wf(),
        meta_wf(final(miner)@),
        final(miner)@ == unplaced(old(miner)@, id as u64),
        !has_order(old(miner)@.rows, id as u64) ==> r == Step::Done(Ok(())),
        has_order(old(miner)@.rows, id as u64) ==> match r {
            Step::RemoveBlob { order, handle } => order == id as u64 && handle@ == old(
                miner,
            )@.rows[row_of(old(miner)@.rows, id as u64)].handle && !handle_used(
                final(miner)@.rows,
                handle@,
            ),
            Step::NotifyChain { order } => order == id as u64 && handle_used(
                final(miner)@.rows,
                old(miner)@.rows[row_of(old(miner)@.rows, id as u64)].handle,
            ),
            _ => false,
        },
{
    miner.delete_placement(id as u64)
}

/// A file that does not match the commitment of its order is refused with
/// `CommitmentMismatch` at admission, the first step of a write, which takes
/// no store: nothing is stored, placed or reserved for it.
pub proof fn lemma_mismatch_refused(file: Seq<u8>, root: Seq<u8>)
    requires
        commitment_of(file) != root,
    ensures
        admission(Some(root), file) == Err::<(), IpseError>(IpseError::CommitmentMismatch),
{
}

/// A write whose file matches the commitment of its order, for an order not
/// yet placed and a file no longer than a sector, is admitted; its placement
/// is then the only one of the order, has the file's length, and the sector
/// it lands in loses exactly that length of remaining capacity while every
/// other sector keeps its own.
pub proof fn lemma_matching_write(
    v: MetaView,
    order: u64,
    file: Seq<u8>,
    root: Seq<u8>,
    handle: Seq<char>,
)
    requires
        meta_wf(v),
        commitment_of(file) == root,
        !has_order(v.rows, order),
        file.len() <= SECTOR_SIZE,
        v.remains.len() + 1 < u64::MAX,
    ensures
        admission(Some(root), file) == Ok::<(), IpseError>(()),
        allocatable(v.remains, file.len() as int),
        ({
            let w = placed(v, order, file.len() as u64, handle);
            let s = first_fit(v.remains, file.len() as int);
            &&& meta_wf(w)
            &&& has_order(w.rows, order)
            &&& forall|i: int|
                0 <= i < w.rows.len() && (#[trigger] w.rows[i]).order == order ==> i
                    == v.rows.len() && w.rows[i].length == file.len() && w.rows[i].sector == s + 1
            &&& w.remains[s] == (if s < v.remains.len() {
                v.remains[s]
            } else {
                SECTOR_SIZE as int
            }) - file.len()
            &&& forall|t: int| 0 <= t < v.remains.len() && t != s ==> w.remains[t] == v.remains[t]
        }),
{
    let len = file.len() as u64;
    let w = placed(v, order, len, handle);
    lemma_first_fit(v.remains, len as int);
    lemma_placed_wf(v, order, len, handle);
    assert(w.rows[v.rows.len() as int].order == order);
    assert forall|i: int| 0 <= i < w.rows.len() && (#[trigger] w.rows[i]).order == order implies i
        == v.rows.len() by {
        if i < v.rows.len() {
            assert(w.rows[i] == v.rows[i]);
        }
    }
}

} // verus!
