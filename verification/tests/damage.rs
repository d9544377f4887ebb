use layout_damage::damage::Damage;

fn all() -> Vec<Damage> {
    let mut values = Vec::new();
    for bits in 0..16u8 {
        values.push(Damage {
            relayout: bits & 1 != 0,
            recollect_children: bits & 2 != 0,
            rebuild_box: bits & 4 != 0,
            reconstruct: bits & 8 != 0,
        });
    }
    values
}

#[test]
fn named_values_are_nested() {
    let chain = [
        Damage::empty(),
        Damage::relayout(),
        Damage::recollect_box_tree_children(),
        Damage::rebuild_box_tree(),
        Damage::reconstruct(),
    ];
    for (i, a) in chain.iter().enumerate() {
        for (j, b) in chain.iter().enumerate() {
            assert_eq!(a.contains(*b), i >= j);
            assert_eq!(a.union(*b), chain[i.max(j)]);
            assert_eq!(a.intersection(*b), chain[i.min(j)]);
            assert_eq!(a == b, i == j);
        }
    }
    assert_eq!(Damage::default(), Damage::empty());
    assert_eq!(
        Damage::reconstruct(),
        Damage { relayout: true, recollect_children: true, rebuild_box: true, reconstruct: true }
    );
    assert_eq!(
        Damage::relayout(),
        Damage {
            relayout: true,
            recollect_children: false,
            rebuild_box: false,
            reconstruct: false
        }
    );
}

#[test]
fn box_damage_means_a_structural_flag() {
    assert!(!Damage::empty().has_box_damage());
    assert!(!Damage::relayout().has_box_damage());
    assert!(Damage::recollect_box_tree_children().has_box_damage());
    assert!(Damage::rebuild_box_tree().has_box_damage());
    assert!(Damage::reconstruct().has_box_damage());
    for d in all() {
        assert_eq!(d.has_box_damage(), d.recollect_children || d.rebuild_box || d.reconstruct);
        assert_eq!(d.is_empty(), d == Damage::empty());
    }
}

#[test]
fn truncate_keeps_geometry_only() {
    assert_eq!(Damage::reconstruct().truncated(), Damage::relayout());
    assert_eq!(Damage::rebuild_box_tree().truncated(), Damage::relayout());
    assert_eq!(Damage::recollect_box_tree_children().truncated(), Damage::relayout());
    assert_eq!(Damage::relayout().truncated(), Damage::relayout());
    assert_eq!(Damage::empty().truncated(), Damage::empty());
    for d in all() {
        let mut in_place = d;
        in_place.truncate();
        assert_eq!(in_place, d.truncated());
        assert!(!in_place.has_box_damage());
        assert_eq!(in_place.relayout, d.relayout);
        assert_eq!(in_place, d.intersection(Damage::relayout()));
    }
}

#[test]
fn union_and_intersection_are_lattice_operations() {
    for a in all() {
        for b in all() {
            let join = a.union(b);
            let meet = a.intersection(b);
            assert!(join.contains(a) && join.contains(b));
            assert!(a.contains(meet) && b.contains(meet));
            assert_eq!(join, b.union(a));
            assert_eq!(meet, b.intersection(a));
            assert_eq!(a.intersects(b), !meet.is_empty());
            assert_eq!(a.contains(b), join == a);
            let mut inserted = a;
            inserted.insert(b);
            assert_eq!(inserted, join);
        }
        assert_eq!(a.union(Damage::empty()), a);
        assert_eq!(a.intersection(Damage::reconstruct()), a);
        assert!(Damage::reconstruct().contains(a));
        assert!(a.contains(Damage::empty()));
    }
}
