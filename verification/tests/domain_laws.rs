//! Lattice behaviour of the usage domains: joins are commutative,
//! associative and idempotent, the full set stays the union of the direct
//! and transitive parts, and insertion maintains all three sets.

use usage_analysis::domains::{AbstractDomain, JoinResult, SetDomain};
use usage_analysis::ids::{ModuleId, StructId};
use usage_analysis::ty::{QualifiedId, QualifiedInstId, Type};
use usage_analysis::usage::{MemoryUsage, UsageCategory, UsageState};

fn mem(m: usize, s: usize) -> QualifiedInstId {
    QualifiedInstId { module_id: ModuleId(m), inst: Vec::new(), id: StructId(s) }
}

fn mem_inst(m: usize, s: usize, inst: Vec<Type>) -> QualifiedInstId {
    QualifiedInstId { module_id: ModuleId(m), inst, id: StructId(s) }
}

#[test]
fn set_domain_insert_and_contains() {
    let mut s = SetDomain::new();
    assert!(!s.contains(&mem(0, 1)));
    assert!(s.insert(mem(0, 1)));
    assert!(s.contains(&mem(0, 1)));
    // Inserting an equal element again does not grow the set.
    assert!(!s.insert(mem(0, 1)));
    assert_eq!(s.len(), 1);
    assert!(s.insert(mem(0, 2)));
    assert_eq!(s.len(), 2);
}

#[test]
fn set_domain_join_is_union() {
    let mut a = SetDomain::new();
    a.insert(mem(0, 1));
    a.insert(mem(0, 2));
    let mut b = SetDomain::new();
    b.insert(mem(0, 2));
    b.insert(mem(0, 3));
    let r = a.join(&b);
    assert_eq!(r, JoinResult::Changed);
    assert!(a.contains(&mem(0, 1)));
    assert!(a.contains(&mem(0, 2)));
    assert!(a.contains(&mem(0, 3)));
    assert_eq!(a.len(), 3);
    // Joining something already included reports Unchanged.
    let r2 = a.join(&b);
    assert_eq!(r2, JoinResult::Unchanged);
}

fn state_with(direct: &[(usize, usize)], transitive: &[(usize, usize)]) -> UsageState {
    let mut st = UsageState::new();
    for (m, s) in direct {
        st.add_direct(UsageCategory::Modified, mem(*m, *s));
    }
    for (m, s) in transitive {
        st.add_transitive(UsageCategory::Assumed, mem(*m, *s));
    }
    st
}

fn same_usage(a: &MemoryUsage, b: &MemoryUsage) -> bool {
    let mut ok = a.all.len() == b.all.len() && a.direct.len() == b.direct.len()
        && a.transitive.len() == b.transitive.len();
    let mut i = 0;
    while i < a.all.len() {
        ok = ok && b.all.contains(a.all.at(i));
        i += 1;
    }
    let mut i = 0;
    while i < a.direct.len() {
        ok = ok && b.direct.contains(a.direct.at(i));
        i += 1;
    }
    let mut i = 0;
    while i < a.transitive.len() {
        ok = ok && b.transitive.contains(a.transitive.at(i));
        i += 1;
    }
    ok
}

fn same_state(a: &UsageState, b: &UsageState) -> bool {
    same_usage(&a.accessed, &b.accessed) && same_usage(&a.modified, &b.modified)
        && same_usage(&a.assumed, &b.assumed) && same_usage(&a.asserted, &b.asserted)
}

#[test]
fn join_is_idempotent() {
    let a = state_with(&[(0, 1), (0, 2)], &[(1, 5)]);
    let mut x = a.dup();
    let r = x.join(&a);
    assert_eq!(r, JoinResult::Unchanged);
    assert!(same_state(&x, &a));
}

#[test]
fn join_is_commutative() {
    let a = state_with(&[(0, 1)], &[(1, 5)]);
    let b = state_with(&[(0, 2)], &[(1, 6)]);
    let mut ab = a.dup();
    ab.join(&b);
    let mut ba = b.dup();
    ba.join(&a);
    assert!(same_state(&ab, &ba));
}

#[test]
fn join_is_associative() {
    let a = state_with(&[(0, 1)], &[]);
    let b = state_with(&[(0, 2)], &[(1, 5)]);
    let c = state_with(&[], &[(1, 6)]);
    let mut ab = a.dup();
    ab.join(&b);
    let mut ab_c = ab.dup();
    ab_c.join(&c);
    let mut bc = b.dup();
    bc.join(&c);
    let mut a_bc = a.dup();
    a_bc.join(&bc);
    assert!(same_state(&ab_c, &a_bc));
}

fn all_is_union(mu: &MemoryUsage) -> bool {
    let mut ok = true;
    let mut i = 0;
    while i < mu.all.len() {
        let e = mu.all.at(i);
        ok = ok && (mu.direct.contains(e) || mu.transitive.contains(e));
        i += 1;
    }
    let mut i = 0;
    while i < mu.direct.len() {
        ok = ok && mu.all.contains(mu.direct.at(i));
        i += 1;
    }
    let mut i = 0;
    while i < mu.transitive.len() {
        ok = ok && mu.all.contains(mu.transitive.at(i));
        i += 1;
    }
    ok
}

#[test]
fn all_stays_union_of_direct_and_transitive() {
    let mut a = state_with(&[(0, 1), (0, 2)], &[(1, 5)]);
    let b = state_with(&[(0, 3)], &[(1, 5), (2, 7)]);
    assert!(all_is_union(&a.accessed) && all_is_union(&a.modified));
    a.join(&b);
    assert!(all_is_union(&a.accessed));
    assert!(all_is_union(&a.modified));
    assert!(all_is_union(&a.assumed));
    assert!(all_is_union(&a.asserted));
}

#[test]
fn inserters_feed_the_accessed_record() {
    let mut st = UsageState::new();
    st.add_direct(UsageCategory::Modified, mem(0, 1));
    st.add_transitive(UsageCategory::Asserted, mem(0, 2));
    assert!(st.modified.direct.contains(&mem(0, 1)));
    assert!(st.accessed.direct.contains(&mem(0, 1)));
    assert!(st.asserted.transitive.contains(&mem(0, 2)));
    assert!(st.accessed.transitive.contains(&mem(0, 2)));
    assert!(st.accessed.all.contains(&mem(0, 1)));
    assert!(st.accessed.all.contains(&mem(0, 2)));
}

#[test]
fn instantiated_and_uninstantiated_views() {
    let mut mu = MemoryUsage::new();
    mu.add_direct(mem_inst(0, 1, vec![Type::Param(0)]));
    mu.add_transitive(mem_inst(0, 2, vec![Type::Bool]));
    let inst = vec![Type::Num];
    let direct_inst = mu.get_direct_inst(&inst);
    assert!(direct_inst.contains(&mem_inst(0, 1, vec![Type::Num])));
    let all_inst = mu.get_all_inst(&inst);
    assert!(all_inst.contains(&mem_inst(0, 1, vec![Type::Num])));
    assert!(all_inst.contains(&mem_inst(0, 2, vec![Type::Bool])));
    let direct_un = mu.get_direct_uninst();
    assert!(direct_un.contains(&QualifiedId { module_id: ModuleId(0), id: StructId(1) }));
    let trans_un = mu.get_transitive_uninst();
    assert!(trans_un.contains(&QualifiedId { module_id: ModuleId(0), id: StructId(2) }));
    let all_un = mu.get_all_uninst();
    assert_eq!(all_un.len(), 2);
}

#[test]
fn subsume_callee_as_direct_and_transitive() {
    let mut callee = UsageState::new();
    callee.add_direct(UsageCategory::Modified, mem_inst(0, 1, vec![Type::Param(0)]));
    let inst = vec![Type::Bool];

    let mut caller1 = UsageState::new();
    caller1.subsume_callee_as_direct(&callee, &inst);
    assert!(caller1.modified.direct.contains(&mem_inst(0, 1, vec![Type::Bool])));
    assert!(caller1.accessed.direct.contains(&mem_inst(0, 1, vec![Type::Bool])));

    let mut caller2 = UsageState::new();
    caller2.subsume_callee_as_transitive(&callee, &inst);
    assert!(caller2.modified.transitive.contains(&mem_inst(0, 1, vec![Type::Bool])));
    assert!(!caller2.modified.direct.contains(&mem_inst(0, 1, vec![Type::Bool])));
}
