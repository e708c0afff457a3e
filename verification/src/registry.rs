//! The registry state machine: class and instance records, account balances,
//! identifier allocation and the five public operations (`create_class`,
//! `mint`, `transfer`, `burn`, `destroy_class`). Every operation checks all
//! of its preconditions before mutating anything, so an error leaves the
//! state exactly as it was.

use vstd::prelude::*;

use crate::auth::can_burn;
use crate::auth::can_create;
use crate::auth::can_destroy;
use crate::auth::can_mint;
use crate::auth::can_transfer;
use crate::auth::spec_can_mint;
use crate::auth::spec_can_burn;
use crate::auth::spec_can_create;
use crate::auth::spec_can_destroy;
use crate::auth::spec_can_transfer;
use crate::tally::class_deposits;
use crate::tally::lemma_class_deposits_push;
use crate::tally::lemma_class_deposits_remove;
use crate::tally::lemma_class_deposits_update;
use crate::tally::lemma_class_le_registry;
use crate::tally::lemma_deposit_le_class;
use crate::tally::lemma_free_le_sum;
use crate::tally::lemma_registry_deposits_push;
use crate::tally::lemma_registry_deposits_remove;
use crate::tally::lemma_registry_deposits_update;
use crate::tally::lemma_sum_free_nonneg;
use crate::tally::lemma_sum_free_push;
use crate::tally::lemma_sum_free_update;
use crate::tally::registry_deposits;
use crate::tally::sum_free;
use crate::types::BalanceEntry;
use crate::types::ClassEntry;
use crate::types::Error;
use crate::types::deposit_amount;
use crate::types::spec_deposit_amount;
use crate::types::ClassType;
use crate::types::Event;
use crate::types::InstanceEntry;
use crate::types::Origin;
use crate::types::SecondaryRef;
use crate::types::MAX_METADATA_LEN;
use crate::types::MAX_MINT_PER_CALL;

verus! {

/// Whether some class of the sequence bears `class_id`.
pub open spec fn has_class(s: Seq<ClassEntry>, class_id: u64) -> bool {
    exists|i: int| 0 <= i < s.len() && s[i].id == class_id
}

/// The index of the class bearing `class_id`; meaningful only when
/// `has_class` holds and ids are distinct.
pub open spec fn class_idx(s: Seq<ClassEntry>, class_id: u64) -> int {
    choose|i: int| 0 <= i < s.len() && s[i].id == class_id
}

/// The class record bearing `class_id`.
pub open spec fn class_of(s: Seq<ClassEntry>, class_id: u64) -> ClassEntry {
    s[class_idx(s, class_id)]
}

/// Whether some instance of the sequence bears `instance_id`.
pub open spec fn has_instance(s: Seq<InstanceEntry>, instance_id: u64) -> bool {
    exists|j: int| 0 <= j < s.len() && s[j].id == instance_id
}

/// The index of the instance bearing `instance_id`; meaningful only when
/// `has_instance` holds and ids are distinct.
pub open spec fn instance_idx(s: Seq<InstanceEntry>, instance_id: u64) -> int {
    choose|j: int| 0 <= j < s.len() && s[j].id == instance_id
}

/// The instance record bearing `instance_id`.
pub open spec fn instance_of(s: Seq<InstanceEntry>, instance_id: u64) -> InstanceEntry {
    s[instance_idx(s, instance_id)]
}

/// Whether the sequence holds a balance entry for `account`.
pub open spec fn has_account(s: Seq<BalanceEntry>, account: u64) -> bool {
    exists|i: int| 0 <= i < s.len() && s[i].account == account
}

/// The index of the balance entry of `account`; meaningful only when
/// `has_account` holds and accounts are distinct.
pub open spec fn account_idx(s: Seq<BalanceEntry>, account: u64) -> int {
    choose|i: int| 0 <= i < s.len() && s[i].account == account
}

/// The free balance of `account`; an account without an entry holds nothing.
pub open spec fn free_of(s: Seq<BalanceEntry>, account: u64) -> int {
    if has_account(s, account) {
        s[account_idx(s, account)].free as int
    } else {
        0
    }
}

/// No two classes of the sequence share an id.
pub open spec fn distinct_class_ids(s: Seq<ClassEntry>) -> bool {
    forall|i: int, j: int|
        #![trigger s[i].id, s[j].id]
        0 <= i < j < s.len() ==> s[i].id != s[j].id
}

/// No two instances of the sequence share an id.
pub open spec fn distinct_instance_ids(s: Seq<InstanceEntry>) -> bool {
    forall|i: int, j: int|
        #![trigger s[i].id, s[j].id]
        0 <= i < j < s.len() ==> s[i].id != s[j].id
}

/// No two balance entries of the sequence share an account.
pub open spec fn distinct_accounts(s: Seq<BalanceEntry>) -> bool {
    forall|i: int, j: int|
        #![trigger s[i].account, s[j].account]
        0 <= i < j < s.len() ==> s[i].account != s[j].account
}

impl ClassEntry {
    /// Well-formedness of one class record: the instance count tracks the
    /// live instances, instance ids are distinct and below the id counter,
    /// and every metadata sequence respects the bound.
    pub open spec fn wf(self) -> bool {
        &&& self.instance_count == self.instances@.len()
        &&& self.instance_count <= self.next_instance_id
        &&& self.metadata@.len() <= MAX_METADATA_LEN
        &&& distinct_instance_ids(self.instances@)
        &&& forall|j: int|
            0 <= j < self.instances@.len() ==> #[trigger] self.instances@[j].id
                < self.next_instance_id
        &&& forall|j: int|
            0 <= j < self.instances@.len() ==> #[trigger] self.instances@[j].metadata@.len()
                <= MAX_METADATA_LEN
    }
}

/// The whole registry: the class records (each carrying its live instances),
/// the account balances, the class-id counter and the total issuance.
pub struct NftRegistry {
    /// The id the next created class will receive.
    pub next_class_id: u64,
    /// The class records, with distinct ids below `next_class_id`.
    pub classes: Vec<ClassEntry>,
    /// The free balance of every known account, one entry per account.
    pub balances: Vec<BalanceEntry>,
    /// All currency ever issued: free balances plus reserved deposits.
    pub total_issuance: u64,
    /// One event per successful state transition, oldest first.
    pub events: Vec<Event>,
}

impl NftRegistry {
    /// Well-formedness of the registry. Conservation — free balances plus
    /// reserved deposits equal the total issuance — is what makes releasing
    /// a deposit provably free of overflow.
    pub open spec fn wf(self) -> bool {
        &&& distinct_class_ids(self.classes@)
        &&& forall|i: int|
            0 <= i < self.classes@.len() ==> #[trigger] self.classes@[i].id < self.next_class_id
        &&& forall|i: int| 0 <= i < self.classes@.len() ==> (#[trigger] self.classes@[i]).wf()
        &&& distinct_accounts(self.balances@)
        &&& forall|i: int, j: int|
            #![trigger self.classes@[i].instances@[j]]
            0 <= i < self.classes@.len() && 0 <= j < self.classes@[i].instances@.len()
                ==> has_account(self.balances@, self.classes@[i].instances@[j].depositor)
        &&& self.total_issuance == sum_free(self.balances@) + registry_deposits(self.classes@)
    }

    /// A fresh registry: no classes, no accounts, nothing issued.
    pub fn new() -> (r: NftRegistry)
        ensures
            r.wf(),
            r.next_class_id == 0,
            r.classes@.len() == 0,
            r.balances@.len() == 0,
            r.total_issuance == 0,
            r.events@.len() == 0,
    {
        let r = NftRegistry {
            next_class_id: 0,
            classes: Vec::new(),
            balances: Vec::new(),
            total_issuance: 0,
            events: Vec::new(),
        };
        proof {
            assert(sum_free(r.balances@) == 0);
            assert(registry_deposits(r.classes@) == 0);
        }
        r
    }
}

/// With distinct ids, position `i` is the one the lookup functions find for
/// the id it bears.
pub proof fn lemma_class_idx_is(s: Seq<ClassEntry>, i: int)
    requires
        distinct_class_ids(s),
        0 <= i < s.len(),
    ensures
        has_class(s, s[i].id),
        class_idx(s, s[i].id) == i,
        class_of(s, s[i].id) == s[i],
{
    assert(has_class(s, s[i].id));
    let j = class_idx(s, s[i].id);
    assert(0 <= j < s.len() && s[j].id == s[i].id);
}

/// With distinct ids, position `j` is the one the lookup functions find for
/// the id it bears.
pub proof fn lemma_instance_idx_is(s: Seq<InstanceEntry>, j: int)
    requires
        distinct_instance_ids(s),
        0 <= j < s.len(),
    ensures
        has_instance(s, s[j].id),
        instance_idx(s, s[j].id) == j,
        instance_of(s, s[j].id) == s[j],
{
    assert(has_instance(s, s[j].id));
    let k = instance_idx(s, s[j].id);
    assert(0 <= k < s.len() && s[k].id == s[j].id);
}

/// With distinct accounts, position `i` is the one the lookup functions find
/// for the account it bears.
pub proof fn lemma_account_idx_is(s: Seq<BalanceEntry>, i: int)
    requires
        distinct_accounts(s),
        0 <= i < s.len(),
    ensures
        has_account(s, s[i].account),
        account_idx(s, s[i].account) == i,
        free_of(s, s[i].account) == s[i].free,
{
    assert(has_account(s, s[i].account));
    let j = account_idx(s, s[i].account);
    assert(0 <= j < s.len() && s[j].account == s[i].account);
}

impl NftRegistry {
    /// The position of the class bearing `class_id`, if any.
    fn find_class(&self, class_id: u64) -> (r: Option<usize>)
        ensures
            match r {
                Some(i) => i < self.classes@.len() && self.classes@[i as int].id == class_id,
                None => !has_class(self.classes@, class_id),
            },
    {
        let mut i: usize = 0;
        while i < self.classes.len()
            invariant
                i <= self.classes@.len(),
                forall|k: int| 0 <= k < i ==> #[trigger] self.classes@[k].id != class_id,
            decreases self.classes@.len() - i,
        {
            if self.classes[i].id == class_id {
                return Some(i);
            }
            i += 1;
        }
        None
    }

    /// The position of the balance entry of `account`, if any.
    fn find_account(&self, account: u64) -> (r: Option<usize>)
        ensures
            match r {
                Some(i) => i < self.balances@.len() && self.balances@[i as int].account == account,
                None => !has_account(self.balances@, account),
            },
    {
        let mut i: usize = 0;
        while i < self.balances.len()
            invariant
                i <= self.balances@.len(),
                forall|k: int| 0 <= k < i ==> #[trigger] self.balances@[k].account != account,
            decreases self.balances@.len() - i,
        {
            if self.balances[i].account == account {
                return Some(i);
            }
            i += 1;
        }
        None
    }

    /// The free balance of `account`.
    pub fn free_balance(&self, account: u64) -> (r: u64)
        requires
            self.wf(),
        ensures
            r == free_of(self.balances@, account),
    {
        match self.find_account(account) {
            Some(i) => {
                proof {
                    lemma_account_idx_is(self.balances@, i as int);
                }
                self.balances[i].free
            },
            None => 0,
        }
    }

    /// Issue `amount` of new currency to the free balance of `account`.
    ///
    /// The one way currency enters the registry; the bound on the total
    /// issuance is what every later reserve and release lives within.
    pub fn endow(&mut self, account: u64, amount: u64)
        requires
            old(self).wf(),
            old(self).total_issuance + amount <= u64::MAX,
        ensures
            final(self).wf(),
            final(self).classes@ == old(self).classes@,
            final(self).next_class_id == old(self).next_class_id,
            final(self).total_issuance == old(self).total_issuance + amount,
            free_of(final(self).balances@, account) == free_of(old(self).balances@, account)
                + amount,
            has_account(final(self).balances@, account),
            has_account(old(self).balances@, account) ==> final(self).balances@ == old(
                self,
            ).balances@.update(
                account_idx(old(self).balances@, account),
                (BalanceEntry {
                    account,
                    free: (free_of(old(self).balances@, account) + amount) as u64,
                }),
            ),
            !has_account(old(self).balances@, account) ==> final(self).balances@ == old(
                self,
            ).balances@.push((BalanceEntry { account, free: amount })),
            final(self).events@ == old(self).events@,
    {
        proof {
            lemma_sum_free_nonneg(self.balances@);
            crate::tally::lemma_registry_deposits_nonneg(self.classes@);
        }
        match self.find_account(account) {
            Some(i) => {
                proof {
                    lemma_account_idx_is(self.balances@, i as int);
                    lemma_free_le_sum(self.balances@, i as int);
                }
                let updated = BalanceEntry { account, free: self.balances[i].free + amount };
                let ghost pre = self.balances@;
                self.balances[i] = updated;
                self.total_issuance = self.total_issuance + amount;
                proof {
                    assert(self.balances@ == pre.update(i as int, updated));
                    lemma_sum_free_update(pre, i as int, updated);
                    assert(distinct_accounts(self.balances@)) by {
                        assert(forall|k: int|
                            0 <= k < pre.len() ==> #[trigger] self.balances@[k].account
                                == pre[k].account);
                    }
                    lemma_account_idx_is(self.balances@, i as int);
                    assert forall|i2: int, j2: int|
                        0 <= i2 < self.classes@.len() && 0 <= j2
                            < self.classes@[i2].instances@.len() implies has_account(
                        self.balances@,
                        #[trigger] self.classes@[i2].instances@[j2].depositor,
                    ) by {
                        let d = self.classes@[i2].instances@[j2].depositor;
                        assert(has_account(pre, d));
                        let k = account_idx(pre, d);
                        assert(self.balances@[k].account == d);
                    }
                }
            },
            None => {
                let entry = BalanceEntry { account, free: amount };
                let ghost pre = self.balances@;
                self.balances.push(entry);
                self.total_issuance = self.total_issuance + amount;
                proof {
                    lemma_sum_free_push(pre, entry);
                    assert(distinct_accounts(self.balances@)) by {
                        assert(forall|k: int|
                            0 <= k < pre.len() ==> #[trigger] self.balances@[k].account
                                == pre[k].account);
                    }
                    lemma_account_idx_is(self.balances@, pre.len() as int);
                    assert(free_of(pre, account) == 0);
                    assert(forall|i2: int, j2: int|
                        #![trigger self.classes@[i2].instances@[j2]]
                        0 <= i2 < self.classes@.len() && 0 <= j2
                            < self.classes@[i2].instances@.len() ==> has_account(
                            self.balances@,
                            self.classes@[i2].instances@[j2].depositor,
                        )) by {
                        assert forall|i2: int, j2: int|
                            0 <= i2 < self.classes@.len() && 0 <= j2
                                < self.classes@[i2].instances@.len() implies has_account(
                            self.balances@,
                            #[trigger] self.classes@[i2].instances@[j2].depositor,
                        ) by {
                            let d = self.classes@[i2].instances@[j2].depositor;
                            assert(has_account(pre, d));
                            let k = account_idx(pre, d);
                            assert(self.balances@[k].account == d);
                        }
                    }
                }
            },
        }
    }
}

/// The exact result `create_class` returns on a well-formed registry:
/// the first failed check names the error, otherwise the allocated id.
pub open spec fn create_class_outcome(
    pre: NftRegistry,
    caller: Origin,
    class_type: ClassType,
    metadata: Seq<u8>,
) -> Result<u64, Error> {
    if !spec_can_create(caller, class_type) {
        Err(Error::NotPermitted)
    } else if metadata.len() > MAX_METADATA_LEN {
        Err(Error::MetadataTooLong)
    } else if pre.next_class_id == u64::MAX {
        Err(Error::NoAvailableClassId)
    } else {
        Ok(pre.next_class_id)
    }
}

/// How a successful `create_class` changes the state: one fresh, empty
/// class record is appended, the id counter advances, nothing else moves.
pub open spec fn create_class_updates(
    pre: NftRegistry,
    post: NftRegistry,
    caller: Origin,
    class_type: ClassType,
    metadata: Seq<u8>,
) -> bool {
    &&& post.next_class_id == pre.next_class_id + 1
    &&& post.classes@.len() == pre.classes@.len() + 1
    &&& forall|i: int| 0 <= i < pre.classes@.len() ==> post.classes@[i] == pre.classes@[i]
    &&& post.classes@.last().id == pre.next_class_id
    &&& post.classes@.last().owner == caller.account
    &&& post.classes@.last().class_type == class_type
    &&& post.classes@.last().metadata@ == metadata
    &&& post.classes@.last().instance_count == 0
    &&& post.classes@.last().next_instance_id == 0
    &&& post.classes@.last().instances@.len() == 0
    &&& post.balances@ == pre.balances@
    &&& post.total_issuance == pre.total_issuance
    &&& post.events@ == pre.events@.push(
        Event::ClassCreated { class_id: pre.next_class_id, owner: caller.account },
    )
}

impl NftRegistry {
    /// Create a class owned by the caller's account, with the given policy
    /// tag and metadata, and return its freshly allocated id.
    pub fn create_class(
        &mut self,
        caller: Origin,
        class_type: ClassType,
        metadata: Vec<u8>,
    ) -> (r: Result<u64, Error>)
        requires
            old(self).wf(),
        ensures
            final(self).wf(),
            r == create_class_outcome(*old(self), caller, class_type, metadata@),
            r is Err ==> *final(self) == *old(self),
            r is Ok ==> create_class_updates(
                *old(self),
                *final(self),
                caller,
                class_type,
                metadata@,
            ),
    {
        if !can_create(caller, class_type) {
            return Err(Error::NotPermitted);
        }
        if metadata.len() > MAX_METADATA_LEN {
            return Err(Error::MetadataTooLong);
        }
        if self.next_class_id == u64::MAX {
            return Err(Error::NoAvailableClassId);
        }
        let id = self.next_class_id;
        let entry = ClassEntry {
            id,
            owner: caller.account,
            class_type,
            metadata,
            instance_count: 0,
            next_instance_id: 0,
            instances: Vec::new(),
        };
        let ghost e = entry;
        let ghost pre = *self;
        self.classes.push(entry);
        self.next_class_id = id + 1;
        self.events.push(Event::ClassCreated { class_id: id, owner: caller.account });
        proof {
            assert(self.classes@ == pre.classes@.push(e));
            lemma_registry_deposits_push(pre.classes@, e);
            assert(class_deposits(e.instances@) == 0);
            assert(e.wf());
            assert(distinct_class_ids(self.classes@)) by {
                assert forall|i: int, j: int|
                    0 <= i < j < self.classes@.len() implies #[trigger] self.classes@[i].id
                    != #[trigger] self.classes@[j].id by {
                    if j < pre.classes@.len() {
                        assert(pre.classes@[i].id != pre.classes@[j].id);
                    } else {
                        assert(self.classes@[j] == e);
                        assert(pre.classes@[i].id < pre.next_class_id);
                    }
                }
            }
            assert forall|i2: int, j2: int|
                0 <= i2 < self.classes@.len() && 0 <= j2
                    < self.classes@[i2].instances@.len() implies has_account(
                self.balances@,
                #[trigger] self.classes@[i2].instances@[j2].depositor,
            ) by {
                assert(i2 < pre.classes@.len());
                assert(self.classes@[i2] == pre.classes@[i2]);
            }
        }
        Ok(id)
    }
}

/// The position of the instance bearing `instance_id`, if any.
fn find_instance(instances: &Vec<InstanceEntry>, instance_id: u64) -> (r: Option<usize>)
    ensures
        match r {
            Some(j) => j < instances@.len() && instances@[j as int].id == instance_id,
            None => !has_instance(instances@, instance_id),
        },
{
    let mut j: usize = 0;
    while j < instances.len()
        invariant
            j <= instances@.len(),
            forall|k: int| 0 <= k < j ==> #[trigger] instances@[k].id != instance_id,
        decreases instances@.len() - j,
    {
        if instances[j].id == instance_id {
            return Some(j);
        }
        j += 1;
    }
    None
}

/// The exact result `transfer` returns on a well-formed registry.
pub open spec fn transfer_outcome(
    pre: NftRegistry,
    caller: Origin,
    class_id: u64,
    instance_id: u64,
    new_owner: u64,
) -> Result<(), Error> {
    if !has_class(pre.classes@, class_id) {
        Err(Error::ClassUnknown)
    } else if !has_instance(class_of(pre.classes@, class_id).instances@, instance_id) {
        Err(Error::InstanceUnknown)
    } else if !spec_can_transfer(
        caller,
        instance_of(class_of(pre.classes@, class_id).instances@, instance_id).owner,
    ) {
        Err(Error::NotPermitted)
    } else {
        Ok(())
    }
}

/// How a successful `transfer` changes the state: the one instance's owner
/// becomes `new_owner`; every other field, record and balance stays.
pub open spec fn transfer_updates(
    pre: NftRegistry,
    post: NftRegistry,
    class_id: u64,
    instance_id: u64,
    new_owner: u64,
) -> bool {
    let ci = class_idx(pre.classes@, class_id);
    let c = pre.classes@[ci];
    let ii = instance_idx(c.instances@, instance_id);
    let e = c.instances@[ii];
    &&& post.next_class_id == pre.next_class_id
    &&& post.balances@ == pre.balances@
    &&& post.total_issuance == pre.total_issuance
    &&& post.classes@.len() == pre.classes@.len()
    &&& forall|i: int|
        0 <= i < pre.classes@.len() && i != ci ==> post.classes@[i] == pre.classes@[i]
    &&& post.classes@[ci].id == c.id
    &&& post.classes@[ci].owner == c.owner
    &&& post.classes@[ci].class_type == c.class_type
    &&& post.classes@[ci].metadata == c.metadata
    &&& post.classes@[ci].instance_count == c.instance_count
    &&& post.classes@[ci].next_instance_id == c.next_instance_id
    &&& post.classes@[ci].instances@.len() == c.instances@.len()
    &&& forall|j: int|
        0 <= j < c.instances@.len() && j != ii ==> post.classes@[ci].instances@[j]
            == c.instances@[j]
    &&& post.classes@[ci].instances@[ii].id == e.id
    &&& post.classes@[ci].instances@[ii].owner == new_owner
    &&& post.classes@[ci].instances@[ii].metadata == e.metadata
    &&& post.classes@[ci].instances@[ii].secondary == e.secondary
    &&& post.classes@[ci].instances@[ii].depositor == e.depositor
    &&& post.classes@[ci].instances@[ii].deposit == e.deposit
    &&& post.events@ == pre.events@.push(
        Event::Transferred { class_id, instance_id, new_owner },
    )
}

impl NftRegistry {
    /// Hand the instance to `new_owner`. Only the current owner may; the
    /// reserved deposit stays with its original depositor.
    pub fn transfer(
        &mut self,
        caller: Origin,
        class_id: u64,
        instance_id: u64,
        new_owner: u64,
    ) -> (r: Result<(), Error>)
        requires
            old(self).wf(),
        ensures
            final(self).wf(),
            r == transfer_outcome(*old(self), caller, class_id, instance_id, new_owner),
            r is Err ==> *final(self) == *old(self),
            r is Ok ==> transfer_updates(
                *old(self),
                *final(self),
                class_id,
                instance_id,
                new_owner,
            ),
    {
        let ci = match self.find_class(class_id) {
            Some(ci) => ci,
            None => {
                return Err(Error::ClassUnknown);
            },
        };
        proof {
            lemma_class_idx_is(self.classes@, ci as int);
            assert(self.classes@[ci as int].wf());
        }
        let ii = match find_instance(&self.classes[ci].instances, instance_id) {
            Some(ii) => ii,
            None => {
                return Err(Error::InstanceUnknown);
            },
        };
        proof {
            lemma_instance_idx_is(self.classes@[ci as int].instances@, ii as int);
        }
        if !can_transfer(caller, self.classes[ci].instances[ii].owner) {
            return Err(Error::NotPermitted);
        }
        let ghost pre = *self;
        let ghost c = pre.classes@[ci as int];
        let ghost e = c.instances@[ii as int];
        self.classes[ci].instances[ii].owner = new_owner;
        self.events.push(Event::Transferred { class_id, instance_id, new_owner });
        proof {
            let ghost e2 = self.classes@[ci as int].instances@[ii as int];
            let ghost c2 = self.classes@[ci as int];
            assert(c2.instances@ == c.instances@.update(ii as int, e2));
            assert(self.classes@ == pre.classes@.update(ci as int, c2));
            lemma_class_deposits_update(c.instances@, ii as int, e2);
            lemma_registry_deposits_update(pre.classes@, ci as int, c2);
            assert(c2.wf()) by {
                assert(forall|j: int|
                    0 <= j < c2.instances@.len() ==> #[trigger] c2.instances@[j].id
                        == c.instances@[j].id);
                assert(forall|j: int|
                    0 <= j < c2.instances@.len() ==> #[trigger] c2.instances@[j].metadata@.len()
                        == c.instances@[j].metadata@.len());
            }
            assert(distinct_class_ids(self.classes@)) by {
                assert(forall|i: int|
                    0 <= i < self.classes@.len() ==> #[trigger] self.classes@[i].id
                        == pre.classes@[i].id);
            }
            assert forall|i2: int, j2: int|
                0 <= i2 < self.classes@.len() && 0 <= j2
                    < self.classes@[i2].instances@.len() implies has_account(
                self.balances@,
                #[trigger] self.classes@[i2].instances@[j2].depositor,
            ) by {
                assert(self.classes@[i2].instances@[j2].depositor
                    == pre.classes@[i2].instances@[j2].depositor);
            }
        }
        Ok(())
    }
}

/// The exact result `burn` returns on a well-formed registry.
pub open spec fn burn_outcome(
    pre: NftRegistry,
    caller: Origin,
    class_id: u64,
    instance_id: u64,
) -> Result<(), Error> {
    if !has_class(pre.classes@, class_id) {
        Err(Error::ClassUnknown)
    } else if !has_instance(class_of(pre.classes@, class_id).instances@, instance_id) {
        Err(Error::InstanceUnknown)
    } else if !spec_can_burn(
        caller,
        class_of(pre.classes@, class_id).class_type,
        class_of(pre.classes@, class_id).owner,
        instance_of(class_of(pre.classes@, class_id).instances@, instance_id).owner,
    ) {
        Err(Error::NotPermitted)
    } else {
        Ok(())
    }
}

/// How a successful `burn` changes the state: the instance record vanishes,
/// the class's count drops by one, and the reserved deposit returns to the
/// free balance of its original depositor.
pub open spec fn burn_updates(
    pre: NftRegistry,
    post: NftRegistry,
    class_id: u64,
    instance_id: u64,
) -> bool {
    let ci = class_idx(pre.classes@, class_id);
    let c = pre.classes@[ci];
    let ii = instance_idx(c.instances@, instance_id);
    let e = c.instances@[ii];
    &&& post.next_class_id == pre.next_class_id
    &&& post.total_issuance == pre.total_issuance
    &&& post.classes@.len() == pre.classes@.len()
    &&& forall|i: int|
        0 <= i < pre.classes@.len() && i != ci ==> post.classes@[i] == pre.classes@[i]
    &&& post.classes@[ci].id == c.id
    &&& post.classes@[ci].owner == c.owner
    &&& post.classes@[ci].class_type == c.class_type
    &&& post.classes@[ci].metadata == c.metadata
    &&& post.classes@[ci].instance_count == c.instance_count - 1
    &&& post.classes@[ci].next_instance_id == c.next_instance_id
    &&& post.classes@[ci].instances@ == c.instances@.remove(ii)
    &&& post.balances@ == pre.balances@.update(
        account_idx(pre.balances@, e.depositor),
        BalanceEntry {
            account: e.depositor,
            free: (free_of(pre.balances@, e.depositor) + e.deposit) as u64,
        },
    )
    &&& free_of(post.balances@, e.depositor) == free_of(pre.balances@, e.depositor) + e.deposit
    &&& post.events@ == pre.events@.push(Event::Burned { class_id, instance_id })
}

/// The exact result `destroy_class` returns on a well-formed registry.
pub open spec fn destroy_class_outcome(
    pre: NftRegistry,
    caller: Origin,
    class_id: u64,
) -> Result<(), Error> {
    if !has_class(pre.classes@, class_id) {
        Err(Error::ClassUnknown)
    } else if class_of(pre.classes@, class_id).instance_count > 0 {
        Err(Error::ClassNotEmpty)
    } else if !spec_can_destroy(
        caller,
        class_of(pre.classes@, class_id).class_type,
        class_of(pre.classes@, class_id).owner,
    ) {
        Err(Error::NotPermitted)
    } else {
        Ok(())
    }
}

/// How a successful `destroy_class` changes the state: the empty class
/// record vanishes; balances, issuance and the class-id counter stay.
pub open spec fn destroy_class_updates(pre: NftRegistry, post: NftRegistry, class_id: u64) -> bool {
    &&& post.next_class_id == pre.next_class_id
    &&& post.total_issuance == pre.total_issuance
    &&& post.balances@ == pre.balances@
    &&& post.classes@ == pre.classes@.remove(class_idx(pre.classes@, class_id))
    &&& post.events@ == pre.events@.push(Event::ClassDestroyed { class_id })
}

impl NftRegistry {
    /// Burn the instance: remove its record, decrement the class's count and
    /// release the reserved deposit to its original depositor. The instance
    /// owner may always burn; in a privileged class the class administrator
    /// may too.
    pub fn burn(&mut self, caller: Origin, class_id: u64, instance_id: u64) -> (r: Result<
        (),
        Error,
    >)
        requires
            old(self).wf(),
        ensures
            final(self).wf(),
            r == burn_outcome(*old(self), caller, class_id, instance_id),
            r is Err ==> *final(self) == *old(self),
            r is Ok ==> burn_updates(*old(self), *final(self), class_id, instance_id),
    {
        let ci = match self.find_class(class_id) {
            Some(ci) => ci,
            None => {
                return Err(Error::ClassUnknown);
            },
        };
        proof {
            lemma_class_idx_is(self.classes@, ci as int);
            assert(self.classes@[ci as int].wf());
        }
        let ii = match find_instance(&self.classes[ci].instances, instance_id) {
            Some(ii) => ii,
            None => {
                return Err(Error::InstanceUnknown);
            },
        };
        proof {
            lemma_instance_idx_is(self.classes@[ci as int].instances@, ii as int);
        }
        if !can_burn(
            caller,
            self.classes[ci].class_type,
            self.classes[ci].owner,
            self.classes[ci].instances[ii].owner,
        ) {
            return Err(Error::NotPermitted);
        }
        let depositor = self.classes[ci].instances[ii].depositor;
        let amount = self.classes[ci].instances[ii].deposit;
        let bi = match self.find_account(depositor) {
            Some(bi) => bi,
            None => {
                // Well-formedness guarantees the depositor of a live
                // instance has a balance entry, so this branch is dead.
                proof {
                    assert(has_account(self.balances@, depositor));
                }
                return Err(Error::NotPermitted);
            },
        };
        let ghost pre = *self;
        let ghost c = pre.classes@[ci as int];
        let ghost e = c.instances@[ii as int];
        proof {
            lemma_account_idx_is(pre.balances@, bi as int);
            lemma_free_le_sum(pre.balances@, bi as int);
            lemma_deposit_le_class(c.instances@, ii as int);
            lemma_class_le_registry(pre.classes@, ci as int);
            crate::tally::lemma_sum_free_nonneg(pre.balances@);
            crate::tally::lemma_registry_deposits_nonneg(pre.classes@);
            crate::tally::lemma_class_deposits_nonneg(c.instances@);
        }
        let released = BalanceEntry { account: depositor, free: self.balances[bi].free + amount };
        self.balances[bi] = released;
        self.classes[ci].instances.remove(ii);
        let count = self.classes[ci].instance_count;
        self.classes[ci].instance_count = count - 1;
        self.events.push(Event::Burned { class_id, instance_id });
        proof {
            let ghost c2 = self.classes@[ci as int];
            assert(c2.instances@ == c.instances@.remove(ii as int));
            assert(self.classes@ == pre.classes@.update(ci as int, c2));
            assert(self.balances@ == pre.balances@.update(bi as int, released));
            lemma_class_deposits_remove(c.instances@, ii as int);
            lemma_registry_deposits_update(pre.classes@, ci as int, c2);
            lemma_sum_free_update(pre.balances@, bi as int, released);
            assert(distinct_accounts(self.balances@)) by {
                assert(forall|k: int|
                    0 <= k < pre.balances@.len() ==> #[trigger] self.balances@[k].account
                        == pre.balances@[k].account);
            }
            lemma_account_idx_is(self.balances@, bi as int);
            assert(c2.wf()) by {
                assert(forall|j: int|
                    0 <= j < c2.instances@.len() ==> c2.instances@[j] == (if j < ii as int {
                        c.instances@[j]
                    } else {
                        c.instances@[j + 1]
                    }));
            }
            assert(distinct_class_ids(self.classes@)) by {
                assert(forall|i: int|
                    0 <= i < self.classes@.len() ==> #[trigger] self.classes@[i].id
                        == pre.classes@[i].id);
            }
            assert forall|i2: int, j2: int|
                0 <= i2 < self.classes@.len() && 0 <= j2
                    < self.classes@[i2].instances@.len() implies has_account(
                self.balances@,
                #[trigger] self.classes@[i2].instances@[j2].depositor,
            ) by {
                let d = self.classes@[i2].instances@[j2].depositor;
                if i2 == ci as int {
                    if j2 < ii as int {
                        assert(d == pre.classes@[i2].instances@[j2].depositor);
                    } else {
                        assert(d == pre.classes@[i2].instances@[j2 + 1].depositor);
                    }
                } else {
                    assert(d == pre.classes@[i2].instances@[j2].depositor);
                }
                assert(has_account(pre.balances@, d));
                let k = account_idx(pre.balances@, d);
                assert(self.balances@[k].account == d);
            }
        }
        Ok(())
    }

    /// Destroy the class. Only an empty class may go; its record vanishes
    /// entirely. The class owner may destroy a public class, only root may
    /// destroy a privileged one.
    pub fn destroy_class(&mut self, caller: Origin, class_id: u64) -> (r: Result<(), Error>)
        requires
            old(self).wf(),
        ensures
            final(self).wf(),
            r == destroy_class_outcome(*old(self), caller, class_id),
            r is Err ==> *final(self) == *old(self),
            r is Ok ==> destroy_class_updates(*old(self), *final(self), class_id),
    {
        let ci = match self.find_class(class_id) {
            Some(ci) => ci,
            None => {
                return Err(Error::ClassUnknown);
            },
        };
        proof {
            lemma_class_idx_is(self.classes@, ci as int);
            assert(self.classes@[ci as int].wf());
        }
        if self.classes[ci].instance_count > 0 {
            return Err(Error::ClassNotEmpty);
        }
        if !can_destroy(caller, self.classes[ci].class_type, self.classes[ci].owner) {
            return Err(Error::NotPermitted);
        }
        let ghost pre = *self;
        let ghost c = pre.classes@[ci as int];
        self.classes.remove(ci);
        self.events.push(Event::ClassDestroyed { class_id });
        proof {
            assert(self.classes@ == pre.classes@.remove(ci as int));
            assert(class_deposits(c.instances@) == 0);
            lemma_registry_deposits_remove(pre.classes@, ci as int);
            assert(forall|i: int|
                0 <= i < self.classes@.len() ==> self.classes@[i] == (if i < ci as int {
                    pre.classes@[i]
                } else {
                    pre.classes@[i + 1]
                }));
            assert(distinct_class_ids(self.classes@)) by {
                assert forall|i: int, j: int|
                    0 <= i < j < self.classes@.len() implies #[trigger] self.classes@[i].id
                    != #[trigger] self.classes@[j].id by {
                    if ci as int <= i {
                        assert(pre.classes@[i + 1].id != pre.classes@[j + 1].id);
                    } else if ci as int <= j {
                        assert(pre.classes@[i].id != pre.classes@[j + 1].id);
                    } else {
                        assert(pre.classes@[i].id != pre.classes@[j].id);
                    }
                }
            }
            assert forall|i2: int, j2: int|
                0 <= i2 < self.classes@.len() && 0 <= j2
                    < self.classes@[i2].instances@.len() implies has_account(
                self.balances@,
                #[trigger] self.classes@[i2].instances@[j2].depositor,
            ) by {
                if i2 < ci as int {
                    assert(has_account(pre.balances@, pre.classes@[i2].instances@[j2].depositor));
                } else {
                    assert(has_account(
                        pre.balances@,
                        pre.classes@[i2 + 1].instances@[j2].depositor,
                    ));
                }
            }
        }
        Ok(())
    }
}

/// A fresh copy of a metadata byte sequence.
fn clone_metadata(v: &Vec<u8>) -> (r: Vec<u8>)
    ensures
        r@ == v@,
{
    let r = v.clone();
    proof {
        assert forall|i: int| 0 <= i < v@.len() implies r@[i] == v@[i] by {
            assert(cloned::<u8>(v@[i], r@[i]));
        }
        assert(v@ =~= r@);
    }
    r
}

/// Whether `e` is the record a mint writes: the given id and owner, the
/// minted metadata, and the deposit reserved from the minting caller.
pub open spec fn minted_instance(
    e: InstanceEntry,
    id: int,
    owner: u64,
    secondary: Option<SecondaryRef>,
    metadata: Seq<u8>,
    depositor: u64,
    deposit: int,
) -> bool {
    &&& e.id == id
    &&& e.owner == owner
    &&& e.metadata@ == metadata
    &&& e.secondary == secondary
    &&& e.depositor == depositor
    &&& e.deposit == deposit
}

/// The whole deposit a mint of `quantity` instances with this metadata
/// reserves from the caller.
pub open spec fn mint_total_deposit(metadata: Seq<u8>, quantity: u64) -> int {
    quantity * spec_deposit_amount(metadata.len())
}

/// The exact result `mint` returns on a well-formed registry: the first
/// failed check names the error, otherwise the id of the first minted
/// instance.
pub open spec fn mint_outcome(
    pre: NftRegistry,
    caller: Origin,
    class_id: u64,
    owner: u64,
    metadata: Seq<u8>,
    quantity: u64,
) -> Result<u64, Error> {
    let c = class_of(pre.classes@, class_id);
    if !has_class(pre.classes@, class_id) {
        Err(Error::ClassUnknown)
    } else if metadata.len() > MAX_METADATA_LEN {
        Err(Error::MetadataTooLong)
    } else if !spec_can_mint(caller, c.class_type) {
        Err(Error::NotPermitted)
    } else if quantity < 1 || quantity > MAX_MINT_PER_CALL {
        Err(Error::NotInRange)
    } else if quantity > u64::MAX - c.next_instance_id {
        Err(Error::NoAvailableInstanceId)
    } else if free_of(pre.balances@, caller.account) < mint_total_deposit(metadata, quantity) {
        Err(Error::InsufficientBalance)
    } else {
        Ok(c.next_instance_id)
    }
}

/// How a successful `mint` changes the state: `quantity` fresh instances
/// with consecutive ids join the class, its counters advance by `quantity`,
/// and the whole deposit moves out of the caller's free balance.
pub open spec fn mint_updates(
    pre: NftRegistry,
    post: NftRegistry,
    caller: Origin,
    class_id: u64,
    owner: u64,
    secondary: Option<SecondaryRef>,
    metadata: Seq<u8>,
    quantity: u64,
) -> bool {
    let ci = class_idx(pre.classes@, class_id);
    let c = pre.classes@[ci];
    let per = spec_deposit_amount(metadata.len());
    let total = mint_total_deposit(metadata, quantity);
    &&& post.next_class_id == pre.next_class_id
    &&& post.total_issuance == pre.total_issuance
    &&& post.classes@.len() == pre.classes@.len()
    &&& forall|i: int|
        0 <= i < pre.classes@.len() && i != ci ==> post.classes@[i] == pre.classes@[i]
    &&& post.classes@[ci].id == c.id
    &&& post.classes@[ci].owner == c.owner
    &&& post.classes@[ci].class_type == c.class_type
    &&& post.classes@[ci].metadata == c.metadata
    &&& post.classes@[ci].instance_count == c.instance_count + quantity
    &&& post.classes@[ci].next_instance_id == c.next_instance_id + quantity
    &&& post.classes@[ci].instances@.len() == c.instances@.len() + quantity
    &&& forall|j: int|
        0 <= j < c.instances@.len() ==> post.classes@[ci].instances@[j] == c.instances@[j]
    &&& forall|k: int|
        0 <= k < quantity ==> minted_instance(
            #[trigger] post.classes@[ci].instances@[c.instances@.len() + k],
            c.next_instance_id + k,
            owner,
            secondary,
            metadata,
            caller.account,
            per,
        )
    &&& post.balances@ == pre.balances@.update(
        account_idx(pre.balances@, caller.account),
        BalanceEntry {
            account: caller.account,
            free: (free_of(pre.balances@, caller.account) - total) as u64,
        },
    )
    &&& free_of(post.balances@, caller.account) == free_of(pre.balances@, caller.account) - total
    &&& post.events@ == pre.events@.push(
        Event::Minted {
            class_id,
            first_instance_id: c.next_instance_id,
            quantity,
            owner,
        },
    )
}

impl NftRegistry {
    /// Mint `quantity` instances with the given owner, metadata and optional
    /// secondary reference into the class, reserving the deposit for each
    /// from the caller's free balance. Returns the id of the first minted
    /// instance; the ids are consecutive from there.
    pub fn mint(
        &mut self,
        caller: Origin,
        class_id: u64,
        owner: u64,
        secondary: Option<SecondaryRef>,
        metadata: Vec<u8>,
        quantity: u64,
    ) -> (r: Result<u64, Error>)
        requires
            old(self).wf(),
        ensures
            final(self).wf(),
            r == mint_outcome(*old(self), caller, class_id, owner, metadata@, quantity),
            r is Err ==> *final(self) == *old(self),
            r is Ok ==> mint_updates(
                *old(self),
                *final(self),
                caller,
                class_id,
                owner,
                secondary,
                metadata@,
                quantity,
            ),
    {
        let ci = match self.find_class(class_id) {
            Some(ci) => ci,
            None => {
                return Err(Error::ClassUnknown);
            },
        };
        proof {
            lemma_class_idx_is(self.classes@, ci as int);
            assert(self.classes@[ci as int].wf());
        }
        if metadata.len() > MAX_METADATA_LEN {
            return Err(Error::MetadataTooLong);
        }
        if !can_mint(caller, self.classes[ci].class_type) {
            return Err(Error::NotPermitted);
        }
        if quantity < 1 || quantity > MAX_MINT_PER_CALL {
            return Err(Error::NotInRange);
        }
        let next = self.classes[ci].next_instance_id;
        if quantity > u64::MAX - next {
            return Err(Error::NoAvailableInstanceId);
        }
        let per = deposit_amount(metadata.len());
        proof {
            assert(quantity * per <= 100 * 266) by (nonlinear_arith)
                requires
                    1 <= quantity <= 100,
                    0 <= per <= 266,
            ;
            assert(per <= quantity * per) by (nonlinear_arith)
                requires
                    1 <= quantity,
                    0 <= per,
            ;
        }
        let total = quantity * per;
        let bi = match self.find_account(caller.account) {
            Some(bi) => bi,
            None => {
                proof {
                    assert(free_of(self.balances@, caller.account) == 0);
                }
                return Err(Error::InsufficientBalance);
            },
        };
        proof {
            lemma_account_idx_is(self.balances@, bi as int);
        }
        let free = self.balances[bi].free;
        if free < total {
            return Err(Error::InsufficientBalance);
        }
        let ghost pre = *self;
        let ghost c = pre.classes@[ci as int];
        let debited = BalanceEntry { account: caller.account, free: free - total };
        self.balances[bi] = debited;
        self.classes[ci].next_instance_id = next + quantity;
        let count = self.classes[ci].instance_count;
        self.classes[ci].instance_count = count + quantity;
        proof {
            lemma_sum_free_update(pre.balances@, bi as int, debited);
            let c1 = self.classes@[ci as int];
            assert(c1.instances@ == c.instances@);
            assert(self.classes@ == pre.classes@.update(ci as int, c1));
            lemma_registry_deposits_update(pre.classes@, ci as int, c1);
            assert(registry_deposits(self.classes@) == registry_deposits(pre.classes@) + 0 * per);
        }
        let mut k: u64 = 0;
        while k < quantity
            invariant
                0 <= k <= quantity,
                ci < self.classes@.len(),
                bi < pre.balances@.len(),
                self.classes@.len() == pre.classes@.len(),
                forall|i: int|
                    0 <= i < pre.classes@.len() && i != ci as int ==> self.classes@[i]
                        == pre.classes@[i],
                self.classes@[ci as int].id == c.id,
                self.classes@[ci as int].owner == c.owner,
                self.classes@[ci as int].class_type == c.class_type,
                self.classes@[ci as int].metadata == c.metadata,
                self.classes@[ci as int].next_instance_id == c.next_instance_id + quantity,
                self.classes@[ci as int].instance_count == c.instance_count + quantity,
                self.classes@[ci as int].instances@.len() == c.instances@.len() + k,
                forall|j: int|
                    0 <= j < c.instances@.len() ==> self.classes@[ci as int].instances@[j]
                        == c.instances@[j],
                forall|k2: int|
                    0 <= k2 < k ==> minted_instance(
                        #[trigger] self.classes@[ci as int].instances@[c.instances@.len() + k2],
                        c.next_instance_id + k2,
                        owner,
                        secondary,
                        metadata@,
                        caller.account,
                        per as int,
                    ),
                self.balances@ == pre.balances@.update(bi as int, debited),
                self.total_issuance == pre.total_issuance,
                self.next_class_id == pre.next_class_id,
                self.events@ == pre.events@,
                registry_deposits(self.classes@) == registry_deposits(pre.classes@) + k * per,
                quantity <= u64::MAX - c.next_instance_id,
                per == spec_deposit_amount(metadata@.len()),
                next == c.next_instance_id,
            decreases quantity - k,
        {
            let meta = clone_metadata(&metadata);
            let entry = InstanceEntry {
                id: next + k,
                owner,
                metadata: meta,
                secondary,
                depositor: caller.account,
                deposit: per,
            };
            let ghost ge = entry;
            let ghost prev = self.classes@;
            let ghost prev_c = self.classes@[ci as int];
            self.classes[ci].instances.push(entry);
            k = k + 1;
            proof {
                let c2 = self.classes@[ci as int];
                assert(c2.instances@ == prev_c.instances@.push(ge));
                assert(self.classes@ == prev.update(ci as int, c2));
                lemma_class_deposits_push(prev_c.instances@, ge);
                lemma_registry_deposits_update(prev, ci as int, c2);
                assert((k - 1) * per + per == k * per) by (nonlinear_arith);
            }
        }
        self.events.push(
            Event::Minted { class_id, first_instance_id: next, quantity, owner },
        );
        proof {
            let cf = self.classes@[ci as int];
            assert(cf.wf()) by {
                assert forall|j1: int, j2: int|
                    0 <= j1 < j2 < cf.instances@.len() implies #[trigger] cf.instances@[j1].id
                    != #[trigger] cf.instances@[j2].id by {
                    if j2 < c.instances@.len() {
                        assert(cf.instances@[j1] == c.instances@[j1]);
                        assert(cf.instances@[j2] == c.instances@[j2]);
                    } else if j1 < c.instances@.len() {
                        assert(cf.instances@[j1] == c.instances@[j1]);
                        assert(cf.instances@[j1].id < c.next_instance_id);
                        assert(minted_instance(
                            cf.instances@[c.instances@.len() + (j2 - c.instances@.len())],
                            c.next_instance_id + (j2 - c.instances@.len()),
                            owner,
                            secondary,
                            metadata@,
                            caller.account,
                            per as int,
                        ));
                    } else {
                        assert(minted_instance(
                            cf.instances@[c.instances@.len() + (j1 - c.instances@.len())],
                            c.next_instance_id + (j1 - c.instances@.len()),
                            owner,
                            secondary,
                            metadata@,
                            caller.account,
                            per as int,
                        ));
                        assert(minted_instance(
                            cf.instances@[c.instances@.len() + (j2 - c.instances@.len())],
                            c.next_instance_id + (j2 - c.instances@.len()),
                            owner,
                            secondary,
                            metadata@,
                            caller.account,
                            per as int,
                        ));
                    }
                }
                assert forall|j: int|
                    0 <= j < cf.instances@.len() implies #[trigger] cf.instances@[j].id
                    < cf.next_instance_id by {
                    if j < c.instances@.len() {
                        assert(cf.instances@[j] == c.instances@[j]);
                    } else {
                        assert(minted_instance(
                            cf.instances@[c.instances@.len() + (j - c.instances@.len())],
                            c.next_instance_id + (j - c.instances@.len()),
                            owner,
                            secondary,
                            metadata@,
                            caller.account,
                            per as int,
                        ));
                    }
                }
                assert forall|j: int|
                    0 <= j < cf.instances@.len() implies #[trigger] cf.instances@[j].metadata@.len()
                    <= MAX_METADATA_LEN by {
                    if j < c.instances@.len() {
                        assert(cf.instances@[j] == c.instances@[j]);
                    } else {
                        assert(minted_instance(
                            cf.instances@[c.instances@.len() + (j - c.instances@.len())],
                            c.next_instance_id + (j - c.instances@.len()),
                            owner,
                            secondary,
                            metadata@,
                            caller.account,
                            per as int,
                        ));
                    }
                }
            }
            assert(distinct_class_ids(self.classes@)) by {
                assert(forall|i: int|
                    0 <= i < self.classes@.len() ==> #[trigger] self.classes@[i].id
                        == pre.classes@[i].id);
            }
            assert(forall|i: int|
                0 <= i < self.classes@.len() ==> #[trigger] self.classes@[i].id
                    < self.next_class_id) by {
                assert(forall|i: int|
                    0 <= i < self.classes@.len() ==> #[trigger] self.classes@[i].id
                        == pre.classes@[i].id);
            }
            assert forall|i: int| 0 <= i < self.classes@.len() implies (
            #[trigger] self.classes@[i]).wf() by {
                if i != ci as int {
                    assert(self.classes@[i] == pre.classes@[i]);
                    assert(pre.classes@[i].wf());
                }
            }
            assert(distinct_accounts(self.balances@)) by {
                assert(forall|i: int|
                    0 <= i < self.balances@.len() ==> #[trigger] self.balances@[i].account
                        == pre.balances@[i].account);
            }
            lemma_sum_free_update(pre.balances@, bi as int, debited);
            assert(self.total_issuance == sum_free(self.balances@) + registry_deposits(
                self.classes@,
            )) by {
                lemma_sum_free_update(pre.balances@, bi as int, debited);
                assert(registry_deposits(self.classes@) == registry_deposits(pre.classes@)
                    + quantity * per);
                assert(quantity * per == total);
            }
            lemma_account_idx_is(pre.balances@, bi as int);
            lemma_account_idx_is(self.balances@, bi as int);
            assert forall|i2: int, j2: int|
                0 <= i2 < self.classes@.len() && 0 <= j2
                    < self.classes@[i2].instances@.len() implies has_account(
                self.balances@,
                #[trigger] self.classes@[i2].instances@[j2].depositor,
            ) by {
                let d = self.classes@[i2].instances@[j2].depositor;
                if i2 == ci as int && j2 >= c.instances@.len() {
                    assert(minted_instance(
                        self.classes@[i2].instances@[c.instances@.len() + (j2
                            - c.instances@.len())],
                        c.next_instance_id + (j2 - c.instances@.len()),
                        owner,
                        secondary,
                        metadata@,
                        caller.account,
                        per as int,
                    ));
                    assert(self.balances@[bi as int].account == caller.account);
                } else {
                    if i2 == ci as int {
                        assert(d == pre.classes@[i2].instances@[j2].depositor);
                    } else {
                        assert(d == pre.classes@[i2].instances@[j2].depositor);
                    }
                    assert(has_account(pre.balances@, d));
                    let kk = account_idx(pre.balances@, d);
                    assert(self.balances@[kk].account == d);
                }
            }
        }
        Ok(next)
    }
}

impl NftRegistry {
    /// Whether a class with this id exists.
    pub fn class_exists(&self, class_id: u64) -> (r: bool)
        ensures
            r == has_class(self.classes@, class_id),
    {
        match self.find_class(class_id) {
            Some(i) => {
                proof {
                    assert(has_class(self.classes@, class_id));
                }
                true
            },
            None => false,
        }
    }

    /// The owner of the class, if it exists.
    pub fn class_owner(&self, class_id: u64) -> (r: Option<u64>)
        requires
            self.wf(),
        ensures
            r == if has_class(self.classes@, class_id) {
                Some(class_of(self.classes@, class_id).owner)
            } else {
                None::<u64>
            },
    {
        match self.find_class(class_id) {
            Some(i) => {
                proof {
                    lemma_class_idx_is(self.classes@, i as int);
                }
                Some(self.classes[i].owner)
            },
            None => None,
        }
    }

    /// The number of live instances of the class, if it exists.
    pub fn class_instance_count(&self, class_id: u64) -> (r: Option<u64>)
        requires
            self.wf(),
        ensures
            r == if has_class(self.classes@, class_id) {
                Some(class_of(self.classes@, class_id).instance_count)
            } else {
                None::<u64>
            },
    {
        match self.find_class(class_id) {
            Some(i) => {
                proof {
                    lemma_class_idx_is(self.classes@, i as int);
                }
                Some(self.classes[i].instance_count)
            },
            None => None,
        }
    }

    /// The id the next instance minted into the class would receive, if the
    /// class exists.
    pub fn class_next_instance_id(&self, class_id: u64) -> (r: Option<u64>)
        requires
            self.wf(),
        ensures
            r == if has_class(self.classes@, class_id) {
                Some(class_of(self.classes@, class_id).next_instance_id)
            } else {
                None::<u64>
            },
    {
        match self.find_class(class_id) {
            Some(i) => {
                proof {
                    lemma_class_idx_is(self.classes@, i as int);
                }
                Some(self.classes[i].next_instance_id)
            },
            None => None,
        }
    }

    /// Whether the instance exists in the class.
    pub fn instance_exists(&self, class_id: u64, instance_id: u64) -> (r: bool)
        requires
            self.wf(),
        ensures
            r == (has_class(self.classes@, class_id) && has_instance(
                class_of(self.classes@, class_id).instances@,
                instance_id,
            )),
    {
        match self.find_class(class_id) {
            Some(i) => {
                proof {
                    lemma_class_idx_is(self.classes@, i as int);
                }
                match find_instance(&self.classes[i].instances, instance_id) {
                    Some(j) => {
                        proof {
                            assert(has_instance(
                                self.classes@[i as int].instances@,
                                instance_id,
                            ));
                        }
                        true
                    },
                    None => false,
                }
            },
            None => false,
        }
    }

    /// The owner of the instance, if it exists.
    pub fn instance_owner(&self, class_id: u64, instance_id: u64) -> (r: Option<u64>)
        requires
            self.wf(),
        ensures
            r == if has_class(self.classes@, class_id) && has_instance(
                class_of(self.classes@, class_id).instances@,
                instance_id,
            ) {
                Some(
                    instance_of(class_of(self.classes@, class_id).instances@, instance_id).owner,
                )
            } else {
                None::<u64>
            },
    {
        match self.find_class(class_id) {
            Some(i) => {
                proof {
                    lemma_class_idx_is(self.classes@, i as int);
                    assert(self.classes@[i as int].wf());
                }
                match find_instance(&self.classes[i].instances, instance_id) {
                    Some(j) => {
                        proof {
                            lemma_instance_idx_is(self.classes@[i as int].instances@, j as int);
                        }
                        Some(self.classes[i].instances[j].owner)
                    },
                    None => None,
                }
            },
            None => None,
        }
    }

    /// Raise the class-id counter to `value`, as an administrative way to
    /// retire part of the id space. The counter never moves backwards: a
    /// `value` below it is rejected as `NotInRange`.
    pub fn set_next_class_id(&mut self, value: u64) -> (r: Result<(), Error>)
        requires
            old(self).wf(),
        ensures
            final(self).wf(),
            r == (if value < old(self).next_class_id {
                Err::<(), Error>(Error::NotInRange)
            } else {
                Ok::<(), Error>(())
            }),
            r is Err ==> *final(self) == *old(self),
            r is Ok ==> {
                &&& final(self).next_class_id == value
                &&& final(self).classes@ == old(self).classes@
                &&& final(self).balances@ == old(self).balances@
                &&& final(self).total_issuance == old(self).total_issuance
                &&& final(self).events@ == old(self).events@
            },
    {
        if value < self.next_class_id {
            return Err(Error::NotInRange);
        }
        self.next_class_id = value;
        Ok(())
    }

    /// Raise the instance-id counter of the class to `value`, as an
    /// administrative way to retire part of its id space. The counter never
    /// moves backwards: a `value` below it is rejected as `NotInRange`.
    pub fn set_next_instance_id(&mut self, class_id: u64, value: u64) -> (r: Result<(), Error>)
        requires
            old(self).wf(),
        ensures
            final(self).wf(),
            r == (if !has_class(old(self).classes@, class_id) {
                Err::<(), Error>(Error::ClassUnknown)
            } else if value < class_of(old(self).classes@, class_id).next_instance_id {
                Err::<(), Error>(Error::NotInRange)
            } else {
                Ok::<(), Error>(())
            }),
            r is Err ==> *final(self) == *old(self),
            r is Ok ==> {
                let ci = class_idx(old(self).classes@, class_id);
                &&& final(self).next_class_id == old(self).next_class_id
                &&& final(self).total_issuance == old(self).total_issuance
                &&& final(self).balances@ == old(self).balances@
                &&& final(self).classes@.len() == old(self).classes@.len()
                &&& forall|i: int|
                    0 <= i < old(self).classes@.len() && i != ci ==> final(self).classes@[i]
                        == old(self).classes@[i]
                &&& final(self).classes@[ci].id == old(self).classes@[ci].id
                &&& final(self).classes@[ci].owner == old(self).classes@[ci].owner
                &&& final(self).classes@[ci].class_type == old(self).classes@[ci].class_type
                &&& final(self).classes@[ci].metadata == old(self).classes@[ci].metadata
                &&& final(self).classes@[ci].instance_count == old(
                    self,
                ).classes@[ci].instance_count
                &&& final(self).classes@[ci].next_instance_id == value
                &&& final(self).classes@[ci].instances == old(self).classes@[ci].instances
                &&& final(self).events@ == old(self).events@
            },
    {
        let ci = match self.find_class(class_id) {
            Some(ci) => ci,
            None => {
                return Err(Error::ClassUnknown);
            },
        };
        proof {
            lemma_class_idx_is(self.classes@, ci as int);
            assert(self.classes@[ci as int].wf());
        }
        if value < self.classes[ci].next_instance_id {
            return Err(Error::NotInRange);
        }
        let ghost pre = *self;
        let ghost c = pre.classes@[ci as int];
        self.classes[ci].next_instance_id = value;
        proof {
            let c2 = self.classes@[ci as int];
            assert(c2.instances@ == c.instances@);
            assert(self.classes@ == pre.classes@.update(ci as int, c2));
            lemma_registry_deposits_update(pre.classes@, ci as int, c2);
            assert(distinct_class_ids(self.classes@)) by {
                assert(forall|i: int|
                    0 <= i < self.classes@.len() ==> #[trigger] self.classes@[i].id
                        == pre.classes@[i].id);
            }
            assert forall|i2: int, j2: int|
                0 <= i2 < self.classes@.len() && 0 <= j2
                    < self.classes@[i2].instances@.len() implies has_account(
                self.balances@,
                #[trigger] self.classes@[i2].instances@[j2].depositor,
            ) by {
                assert(self.classes@[i2].instances@[j2].depositor
                    == pre.classes@[i2].instances@[j2].depositor);
            }
        }
        Ok(())
    }
}

} // verus!
