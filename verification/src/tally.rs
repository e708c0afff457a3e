//! Sums over the registry's sequences: the free balances of all accounts and
//! the deposits reserved for all live instances. The registry's conservation
//! invariant states that both together equal the total issuance, which is
//! what rules out arithmetic overflow when deposits are reserved or released.

use vstd::prelude::*;

use crate::types::BalanceEntry;
use crate::types::ClassEntry;
use crate::types::InstanceEntry;

verus! {

/// The sum of the free balances of all accounts.
pub open spec fn sum_free(s: Seq<BalanceEntry>) -> int
    decreases s.len(),
{
    if s.len() == 0 {
        0
    } else {
        s[0].free + sum_free(s.drop_first())
    }
}

/// The sum of the deposits reserved for the instances of one class.
pub open spec fn class_deposits(s: Seq<InstanceEntry>) -> int
    decreases s.len(),
{
    if s.len() == 0 {
        0
    } else {
        s[0].deposit + class_deposits(s.drop_first())
    }
}

/// The sum of the deposits reserved for every live instance of the registry.
pub open spec fn registry_deposits(s: Seq<ClassEntry>) -> int
    decreases s.len(),
{
    if s.len() == 0 {
        0
    } else {
        class_deposits(s[0].instances@) + registry_deposits(s.drop_first())
    }
}

pub proof fn lemma_sum_free_push(s: Seq<BalanceEntry>, e: BalanceEntry)
    ensures
        sum_free(s.push(e)) == sum_free(s) + e.free,
    decreases s.len(),
{
    reveal_with_fuel(sum_free, 3);
    if s.len() == 0 {
        assert(s.push(e).drop_first() =~= Seq::<BalanceEntry>::empty());
    } else {
        assert(s.push(e).drop_first() =~= s.drop_first().push(e));
        assert(s.push(e)[0] == s[0]);
        lemma_sum_free_push(s.drop_first(), e);
    }
}

pub proof fn lemma_sum_free_update(s: Seq<BalanceEntry>, i: int, e: BalanceEntry)
    requires
        0 <= i < s.len(),
    ensures
        sum_free(s.update(i, e)) == sum_free(s) - s[i].free + e.free,
    decreases s.len(),
{
    if i == 0 {
        assert(s.update(0, e).drop_first() =~= s.drop_first());
    } else {
        assert(s.update(i, e).drop_first() =~= s.drop_first().update(i - 1, e));
        lemma_sum_free_update(s.drop_first(), i - 1, e);
        assert(s.drop_first()[i - 1] == s[i]);
    }
}

pub proof fn lemma_sum_free_nonneg(s: Seq<BalanceEntry>)
    ensures
        sum_free(s) >= 0,
    decreases s.len(),
{
    if s.len() > 0 {
        lemma_sum_free_nonneg(s.drop_first());
    }
}

/// No single account holds more than the sum of all free balances.
pub proof fn lemma_free_le_sum(s: Seq<BalanceEntry>, i: int)
    requires
        0 <= i < s.len(),
    ensures
        s[i].free <= sum_free(s),
    decreases s.len(),
{
    if i == 0 {
        lemma_sum_free_nonneg(s.drop_first());
    } else {
        lemma_free_le_sum(s.drop_first(), i - 1);
        assert(s.drop_first()[i - 1] == s[i]);
    }
}

pub proof fn lemma_class_deposits_push(s: Seq<InstanceEntry>, e: InstanceEntry)
    ensures
        class_deposits(s.push(e)) == class_deposits(s) + e.deposit,
    decreases s.len(),
{
    reveal_with_fuel(class_deposits, 3);
    if s.len() == 0 {
        assert(s.push(e).drop_first() =~= Seq::<InstanceEntry>::empty());
    } else {
        assert(s.push(e).drop_first() =~= s.drop_first().push(e));
        assert(s.push(e)[0] == s[0]);
        lemma_class_deposits_push(s.drop_first(), e);
    }
}

pub proof fn lemma_class_deposits_update(s: Seq<InstanceEntry>, i: int, e: InstanceEntry)
    requires
        0 <= i < s.len(),
    ensures
        class_deposits(s.update(i, e)) == class_deposits(s) - s[i].deposit + e.deposit,
    decreases s.len(),
{
    if i == 0 {
        assert(s.update(0, e).drop_first() =~= s.drop_first());
    } else {
        assert(s.update(i, e).drop_first() =~= s.drop_first().update(i - 1, e));
        lemma_class_deposits_update(s.drop_first(), i - 1, e);
        assert(s.drop_first()[i - 1] == s[i]);
    }
}

pub proof fn lemma_class_deposits_remove(s: Seq<InstanceEntry>, i: int)
    requires
        0 <= i < s.len(),
    ensures
        class_deposits(s.remove(i)) == class_deposits(s) - s[i].deposit,
    decreases s.len(),
{
    if i == 0 {
        assert(s.remove(0) =~= s.drop_first());
    } else {
        assert(s.remove(i).drop_first() =~= s.drop_first().remove(i - 1));
        lemma_class_deposits_remove(s.drop_first(), i - 1);
        assert(s.drop_first()[i - 1] == s[i]);
    }
}

pub proof fn lemma_class_deposits_nonneg(s: Seq<InstanceEntry>)
    ensures
        class_deposits(s) >= 0,
    decreases s.len(),
{
    if s.len() > 0 {
        lemma_class_deposits_nonneg(s.drop_first());
    }
}

/// No single instance's deposit exceeds the deposits of its class.
pub proof fn lemma_deposit_le_class(s: Seq<InstanceEntry>, i: int)
    requires
        0 <= i < s.len(),
    ensures
        s[i].deposit <= class_deposits(s),
    decreases s.len(),
{
    if i == 0 {
        lemma_class_deposits_nonneg(s.drop_first());
    } else {
        lemma_deposit_le_class(s.drop_first(), i - 1);
        assert(s.drop_first()[i - 1] == s[i]);
    }
}

pub proof fn lemma_registry_deposits_push(s: Seq<ClassEntry>, e: ClassEntry)
    ensures
        registry_deposits(s.push(e)) == registry_deposits(s) + class_deposits(e.instances@),
    decreases s.len(),
{
    reveal_with_fuel(registry_deposits, 3);
    if s.len() == 0 {
        assert(s.push(e).drop_first() =~= Seq::<ClassEntry>::empty());
    } else {
        assert(s.push(e).drop_first() =~= s.drop_first().push(e));
        assert(s.push(e)[0] == s[0]);
        lemma_registry_deposits_push(s.drop_first(), e);
    }
}

pub proof fn lemma_registry_deposits_update(s: Seq<ClassEntry>, i: int, e: ClassEntry)
    requires
        0 <= i < s.len(),
    ensures
        registry_deposits(s.update(i, e)) == registry_deposits(s) - class_deposits(
            s[i].instances@,
        ) + class_deposits(e.instances@),
    decreases s.len(),
{
    if i == 0 {
        assert(s.update(0, e).drop_first() =~= s.drop_first());
    } else {
        assert(s.update(i, e).drop_first() =~= s.drop_first().update(i - 1, e));
        lemma_registry_deposits_update(s.drop_first(), i - 1, e);
        assert(s.drop_first()[i - 1] == s[i]);
    }
}

pub proof fn lemma_registry_deposits_remove(s: Seq<ClassEntry>, i: int)
    requires
        0 <= i < s.len(),
    ensures
        registry_deposits(s.remove(i)) == registry_deposits(s) - class_deposits(s[i].instances@),
    decreases s.len(),
{
    if i == 0 {
        assert(s.remove(0) =~= s.drop_first());
    } else {
        assert(s.remove(i).drop_first() =~= s.drop_first().remove(i - 1));
        lemma_registry_deposits_remove(s.drop_first(), i - 1);
        assert(s.drop_first()[i - 1] == s[i]);
    }
}

pub proof fn lemma_registry_deposits_nonneg(s: Seq<ClassEntry>)
    ensures
        registry_deposits(s) >= 0,
    decreases s.len(),
{
    if s.len() > 0 {
        lemma_class_deposits_nonneg(s[0].instances@);
        lemma_registry_deposits_nonneg(s.drop_first());
    }
}

/// No single class's deposits exceed the deposits of the whole registry.
pub proof fn lemma_class_le_registry(s: Seq<ClassEntry>, i: int)
    requires
        0 <= i < s.len(),
    ensures
        class_deposits(s[i].instances@) <= registry_deposits(s),
    decreases s.len(),
{
    if i == 0 {
        lemma_registry_deposits_nonneg(s.drop_first());
    } else {
        lemma_class_deposits_nonneg(s[0].instances@);
        lemma_class_le_registry(s.drop_first(), i - 1);
        assert(s.drop_first()[i - 1] == s[i]);
    }
}

} // verus!
