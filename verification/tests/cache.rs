use node_graph::cache::Cache;
use node_graph::cache::CacheIndex;
use node_graph::values::Circle;
use node_graph::values::Particle;
use node_graph::values::Tag;
use node_graph::values::Value;
use node_graph::values::Vec2;

fn num_at(cache: &Cache, ci: &CacheIndex) -> Option<i64> {
    match cache.get(ci) {
        Some(v) => v.as_num(),
        None => None,
    }
}

#[test]
fn insert_then_get_returns_the_value() {
    let mut cache = Cache::new();
    let ci = cache.insert(Value::Num(7));
    assert!(ci.is_type(Tag::Num));
    assert_eq!(ci.index(), 0);
    assert_eq!(num_at(&cache, &ci), Some(7));
}

#[test]
fn type_isolation_between_arenas() {
    let mut cache = Cache::new();
    let a = cache.insert(Value::Num(1));
    let b = cache.insert(Value::Bool(true));
    // the two handles collide on the numeric index but name different arenas
    assert_eq!(a.index(), b.index());
    // reading A's handle never yields B's value
    assert_eq!(cache.get(&a).unwrap().as_bool(), None);
    assert_eq!(cache.get(&a).unwrap().as_num(), Some(1));
    assert_eq!(cache.get(&b).unwrap().as_num(), None);
    assert_eq!(cache.get(&b).unwrap().as_bool(), Some(true));
    // a forged handle with A's index but B's tag reads B's arena, not A's
    let forged = CacheIndex::new(Tag::Bool, a.index());
    assert_eq!(cache.get(&forged).unwrap().as_num(), None);
}

#[test]
fn set_is_a_noop_on_tag_mismatch() {
    let mut cache = Cache::new();
    let ci = cache.insert(Value::Num(7));
    cache.set(&ci, Value::Bool(true));
    assert_eq!(num_at(&cache, &ci), Some(7));
    cache.set(&ci, Value::Num(8));
    assert_eq!(num_at(&cache, &ci), Some(8));
}

#[test]
fn remove_is_a_noop_on_tag_mismatch() {
    let mut cache = Cache::new();
    let ci = cache.insert(Value::Num(7));
    cache.remove(&ci, Tag::Bool);
    assert_eq!(num_at(&cache, &ci), Some(7));
    cache.remove(&ci, Tag::Num);
    assert!(cache.get(&ci).is_none());
}

#[test]
fn removed_slot_is_reused_by_the_next_insert() {
    let mut cache = Cache::new();
    let a = cache.insert(Value::Num(1));
    let b = cache.insert(Value::Num(2));
    cache.remove(&a, Tag::Num);
    let c = cache.insert(Value::Num(3));
    assert_eq!(c.index(), a.index());
    assert_eq!(num_at(&cache, &c), Some(3));
    assert_eq!(num_at(&cache, &b), Some(2));
}

#[test]
fn get_on_an_unregistered_type_is_none() {
    let cache = Cache::new();
    let ci = CacheIndex::new(Tag::Circle, 0);
    assert!(cache.get(&ci).is_none());
    assert!(cache.get_all_of_type(Tag::Circle).is_none());
}

#[test]
fn register_is_idempotent() {
    let mut cache = Cache::new();
    cache.register(Tag::Num);
    let a = cache.insert(Value::Num(5));
    cache.register(Tag::Num);
    // registering again does not wipe the arena
    assert_eq!(num_at(&cache, &a), Some(5));
}

#[test]
fn get_all_of_type_enumerates_live_values() {
    let mut cache = Cache::new();
    let c1 = Circle::new(Vec2::new(1, 2), 3);
    let c2 = Circle::new(Vec2::new(4, 5), 6);
    cache.insert(Value::Circle(c1));
    cache.insert(Value::Circle(c2));
    cache.insert(Value::Num(9));
    let arena = cache.get_all_of_type(Tag::Circle).unwrap();
    assert_eq!(arena.len(), 2);
    assert_eq!(arena.get(0).unwrap().as_circle(), Some(c1));
    assert_eq!(arena.get(1).unwrap().as_circle(), Some(c2));
}

#[test]
fn value_accessors_match_variants() {
    let v = Value::Vec2(Vec2::new(3, 4));
    assert_eq!(v.tag(), Tag::Vec2);
    assert_eq!(v.as_vec2(), Some(Vec2::new(3, 4)));
    assert_eq!(v.as_num(), None);
    assert_eq!(v.as_bool(), None);
    assert_eq!(v.as_particle(), None);
    assert_eq!(v.as_circle(), None);
}

#[test]
fn particle_update_integrates_one_step() {
    let mut p = Particle::new();
    assert_eq!(p.get_mass(), 1);
    p.apply_force(Vec2::new(6, -2));
    assert_eq!(p.get_acceleration(), Vec2::new(6, -2));
    p.update();
    assert_eq!(p.get_velocity(), Vec2::new(6, -2));
    assert_eq!(p.get_position(), Vec2::new(6, -2));
    assert_eq!(p.get_acceleration(), Vec2::new(0, 0));
    p.update();
    assert_eq!(p.get_position(), Vec2::new(12, -4));
}

#[test]
fn apply_force_divides_by_mass() {
    let mut p = Particle::new();
    *p.get_mut_mass() = 2;
    p.apply_force(Vec2::new(7, -7));
    // truncated division
    assert_eq!(p.get_acceleration(), Vec2::new(3, -3));
    // a massless particle ignores forces
    let mut q = Particle::new();
    *q.get_mut_mass() = 0;
    q.apply_force(Vec2::new(5, 5));
    assert_eq!(q.get_acceleration(), Vec2::new(0, 0));
}

#[test]
fn particle_arithmetic_saturates() {
    let mut p = Particle::new();
    *p.get_mut_velocity() = Vec2::new(i64::MAX, i64::MIN);
    *p.get_mut_acceleration() = Vec2::new(1, -1);
    p.update();
    assert_eq!(p.get_velocity(), Vec2::new(i64::MAX, i64::MIN));
}

#[test]
fn circle_setters_and_getters() {
    let mut c = Circle::new(Vec2::new(0, 0), 5);
    c.set_position(Vec2::new(8, 9));
    c.set_radius(2);
    assert_eq!(c.get_position(), Vec2::new(8, 9));
    assert_eq!(c.get_radius(), 2);
}
