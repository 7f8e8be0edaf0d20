use moesniper::config::DalLevel;
use moesniper::guard::{check_resources, resource_gate, MemoryStats};

#[test]
fn gate_messages() {
    assert_eq!(resource_gate(DalLevel::Baseline, Ok(()), Err("late".to_string())), Ok(()));
    assert_eq!(
        resource_gate(DalLevel::Enhanced, Err("RSS memory exceeds configured safety ceiling".to_string()), Ok(())),
        Err("resource safety: RSS memory exceeds configured safety ceiling".to_string())
    );
    assert_eq!(
        resource_gate(DalLevel::Maximum, Ok(()), Err("x".to_string())),
        Err("resource safety (DAL maximum): x".to_string())
    );
    assert_eq!(resource_gate(DalLevel::Maximum, Ok(()), Ok(())), Ok(()));
}

#[test]
fn gate_with_zero_ceiling_fails() {
    let guard = llmosafe::ResourceGuard::new(0);
    assert_eq!(
        check_resources(&guard, DalLevel::Baseline),
        Err("resource safety: RSS memory exceeds configured safety ceiling".to_string())
    );
}

#[test]
fn memory_stats_from_readings() {
    let s = MemoryStats::from_readings(16_000, 25);
    assert_eq!(s.available_bytes, 16_000);
    assert_eq!(s.used_bytes, 2_000);
    assert_eq!(s.pressure, 25);
    assert_eq!(MemoryStats::from_readings(7, 100).used_bytes, 3);
}
