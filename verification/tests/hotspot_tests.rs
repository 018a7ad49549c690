use klc::jit::hotspot::HotSpotDetector;
use klc::jit::JitConfig;

fn test_config() -> JitConfig {
    JitConfig { enable_jit: true, hot_threshold: 3, max_jit_instrs: 500, jit_debug: false, max_cache_entries: 256 }
}

#[test]
fn test_func_hotspot() {
    let mut detector = HotSpotDetector::new(test_config());
    assert!(!detector.record_function_call(0));
    assert!(!detector.record_function_call(0));
    assert!(detector.record_function_call(0));
    assert!(!detector.record_function_call(0));
}

#[test]
fn test_loop_hotspot() {
    let mut detector = HotSpotDetector::new(test_config());
    assert!(!detector.record_loop_backedge(0, 10, 5));
    assert!(!detector.record_loop_backedge(0, 10, 5));
    assert!(detector.record_loop_backedge(0, 10, 5));
    assert!(!detector.record_loop_backedge(0, 10, 5));
}

#[test]
fn test_forward_jump_not_loop() {
    let mut detector = HotSpotDetector::new(test_config());
    assert!(!detector.record_loop_backedge(0, 5, 10));
    assert!(!detector.record_loop_backedge(0, 5, 10));
    assert!(!detector.record_loop_backedge(0, 5, 10));
}

#[test]
fn test_disabled_detector() {
    let config = JitConfig { enable_jit: false, ..test_config() };
    let mut detector = HotSpotDetector::new(config);
    for _ in 0..100 {
        assert!(!detector.record_function_call(0));
        assert!(!detector.record_loop_backedge(0, 10, 5));
    }
}

#[test]
fn test_reset() {
    let mut detector = HotSpotDetector::new(test_config());
    assert!(!detector.record_function_call(0));
    assert!(!detector.record_function_call(0));
    detector.reset();
    assert!(!detector.record_function_call(1));
    assert!(!detector.record_function_call(1));
    assert!(detector.record_function_call(1));
}

// ---------------------------------------------------------------------------

#[test]
fn counts_and_stats() {
    let mut d = HotSpotDetector::new(test_config());
    assert!(d.enabled());
    d.record_function_call(4);
    d.record_function_call(4);
    d.record_function_call(9);
    assert_eq!(d.get_func_count(4), 2);
    assert_eq!(d.get_func_count(9), 1);
    assert_eq!(d.get_func_count(5), 0);
    d.record_loop_backedge(2, 20, 7);
    d.record_loop_backedge(usize::MAX, 20, 7);
    assert_eq!(d.get_loop_count(2, 7), 1);
    assert_eq!(d.get_loop_count(usize::MAX, 7), 1);
    assert_eq!(d.get_loop_count(2, 8), 0);
    let s = d.stats();
    assert_eq!((s.total_funcs_tracked, s.total_loops_tracked, s.jit_compiled, s.hot_threshold), (2, 2, 0, 3));
    assert_eq!(s.to_string(), "[JIT Stats] 函数追踪: 2, 循环追踪: 2, JIT已编译: 0, 阈值: 3");
}

#[test]
fn fires_once_per_key_even_after_reset() {
    let mut d = HotSpotDetector::new(test_config());
    for _ in 0..2 {
        assert!(!d.record_custom(77));
    }
    assert!(d.record_custom(77));
    d.reset();
    for _ in 0..10 {
        assert!(!d.record_custom(77));
    }
    assert_eq!(d.stats().jit_compiled, 1);
}

#[test]
fn loop_key_shares_space_with_custom_keys() {
    let mut d = HotSpotDetector::new(test_config());
    // function 1, target 5 -> key (1 << 32) | 5
    let key = (1u64 << 32) | 5;
    d.record_custom(key);
    d.record_custom(key);
    assert_eq!(d.get_loop_count(1, 5), 2);
    assert!(d.record_loop_backedge(1, 9, 5));
}

#[test]
fn threshold_zero_fires_on_first_call() {
    let mut d = HotSpotDetector::new(JitConfig { hot_threshold: 0, ..test_config() });
    assert!(d.record_function_call(3));
    assert!(!d.record_function_call(3));
}

#[test]
fn functions_and_loops_fire_independently() {
    let mut d = HotSpotDetector::new(JitConfig { enable_jit: true, hot_threshold: 1, ..JitConfig::default() });
    assert!(d.record_function_call(5));
    // loop key (0 << 32) | 5 equals function index 5 as a number, yet fires on its own
    assert!(d.record_loop_backedge(0, 10, 5));
    assert!(!d.record_loop_backedge(0, 10, 5));
    assert!(!d.record_function_call(5));
    assert_eq!(d.stats().jit_compiled, 2);
}
