use gg_web::{
    begin_start, complete_start, instance_key, start_step, stop_all_gg_web, stop_gg_web,
    GGInstance, Registry, StartStep,
};
use tokio::sync::oneshot;
use tokio::task::JoinHandle;

fn runtime() -> tokio::runtime::Runtime {
    tokio::runtime::Builder::new_current_thread()
        .enable_all()
        .build()
        .unwrap()
}

/// A record for a task that keeps running, with the receiving end of its
/// external shutdown signal kept by the caller.
fn running_instance(port: u16) -> (GGInstance, oneshot::Receiver<()>) {
    let (tx, rx) = oneshot::channel::<()>();
    let handle = tokio::spawn(std::future::pending::<()>());
    (GGInstance::new(port, tx, handle), rx)
}

/// A record whose task has already finished.
async fn finished_instance(port: u16) -> GGInstance {
    let (tx, _rx) = oneshot::channel::<()>();
    let handle: JoinHandle<()> = tokio::spawn(async {});
    while !handle.is_finished() {
        tokio::task::yield_now().await;
    }
    GGInstance::new(port, tx, handle)
}

/// Runs a start for `path` against the registry, launching a record on
/// `fresh_port` when the registry asks for one.
fn start(reg: &mut Registry, path: &str, fresh_port: u16) -> u16 {
    let key = instance_key(path);
    match begin_start(reg, &key) {
        StartStep::Reuse(p) => p,
        StartStep::Launch => {
            let (inst, _rx) = running_instance(fresh_port);
            complete_start(reg, key, inst)
        }
    }
}

#[test]
fn instance_key_folds_case() {
    assert_eq!(instance_key("/Ws/A"), "/ws/a");
    assert_eq!(instance_key("/ws/a"), "/ws/a");
    assert_eq!(instance_key("C:\\Users\\ÄRGER"), "c:\\users\\ärger");
    assert_eq!(instance_key(""), "");
}

#[test]
fn start_twice_reuses_port() {
    runtime().block_on(async {
        let mut reg = Registry::new();
        assert_eq!(start(&mut reg, "/ws/p", 4001), 4001);
        assert_eq!(start(&mut reg, "/ws/p", 4002), 4001);
        assert_eq!(reg.port_of(&instance_key("/ws/p")), Some(4001));
    });
}

#[test]
fn second_start_launches_nothing() {
    runtime().block_on(async {
        let mut reg = Registry::new();
        let key = instance_key("/ws/p");
        assert!(matches!(begin_start(&mut reg, &key), StartStep::Launch));
        let (inst, _rx) = running_instance(4100);
        assert_eq!(complete_start(&mut reg, key.clone(), inst), 4100);
        assert!(matches!(begin_start(&mut reg, &key), StartStep::Reuse(4100)));
    });
}

#[test]
fn case_variants_share_instance() {
    runtime().block_on(async {
        let mut reg = Registry::new();
        let first = start(&mut reg, "/Ws/A", 4201);
        let second = start(&mut reg, "/ws/a", 4202);
        assert_eq!(first, 4201);
        assert_eq!(second, 4201);
    });
}

#[test]
fn stale_entry_is_replaced() {
    runtime().block_on(async {
        let mut reg = Registry::new();
        let key = instance_key("/ws/k");
        let stale = finished_instance(4301).await;
        complete_start(&mut reg, key.clone(), stale);
        assert!(!reg.task_running(&key));
        assert_eq!(reg.lookup(&key), None);
        assert!(matches!(begin_start(&mut reg, &key), StartStep::Launch));
        assert!(!reg.contains(&key));
        assert_eq!(start(&mut reg, "/ws/k", 4302), 4302);
        assert_eq!(reg.port_of(&key), Some(4302));
    });
}

#[test]
fn start_step_follows_the_running_flag() {
    runtime().block_on(async {
        let mut reg = Registry::new();
        let key = instance_key("/ws/s");
        let (inst, _rx) = running_instance(4401);
        reg.insert(key.clone(), inst);
        assert!(matches!(start_step(&mut reg, &key, true), StartStep::Reuse(4401)));
        assert!(reg.contains(&key));
        assert!(matches!(start_step(&mut reg, &key, false), StartStep::Launch));
        assert!(!reg.contains(&key));
        assert!(matches!(start_step(&mut reg, &key, true), StartStep::Launch));
    });
}

#[test]
fn stop_unknown_is_noop() {
    runtime().block_on(async {
        let mut reg = Registry::new();
        start(&mut reg, "/ws/live", 4501);
        assert!(stop_gg_web(&mut reg, "/never/started").is_none());
        assert_eq!(reg.port_of(&instance_key("/ws/live")), Some(4501));
        assert!(!reg.contains(&instance_key("/never/started")));
    });
}

#[test]
fn stop_fires_signal_and_removes() {
    runtime().block_on(async {
        let mut reg = Registry::new();
        let (inst, mut rx) = running_instance(4601);
        complete_start(&mut reg, instance_key("/ws/x"), inst);
        let stopped = stop_gg_web(&mut reg, "/WS/X").unwrap();
        assert_eq!(stopped.port(), 4601);
        assert!(!stopped.is_armed());
        assert!(!reg.contains(&instance_key("/ws/x")));
        assert!(stop_gg_web(&mut reg, "/ws/x").is_none());
        assert_eq!(rx.try_recv(), Ok(()));
    });
}

#[test]
fn stop_all_keeps_exempt() {
    runtime().block_on(async {
        let mut reg = Registry::new();
        let (a, mut rx_a) = running_instance(4701);
        let (b, mut rx_b) = running_instance(4702);
        let (c, mut rx_c) = running_instance(4703);
        complete_start(&mut reg, instance_key("/ws/a"), a);
        complete_start(&mut reg, instance_key("/ws/b"), b);
        complete_start(&mut reg, instance_key("/ws/c"), c);
        let stopped = stop_all_gg_web(&mut reg, Some("/ws/B".to_string()));
        let mut keys: Vec<(String, u16)> = stopped
            .iter()
            .map(|e| (e.key.clone(), e.instance.port()))
            .collect();
        keys.sort();
        assert_eq!(keys, vec![("/ws/a".to_string(), 4701), ("/ws/c".to_string(), 4703)]);
        assert!(stopped.iter().all(|e| !e.instance.is_armed()));
        assert!(!reg.contains(&instance_key("/ws/a")));
        assert!(!reg.contains(&instance_key("/ws/c")));
        assert_eq!(reg.port_of(&instance_key("/ws/b")), Some(4702));
        assert_eq!(rx_a.try_recv(), Ok(()));
        assert_eq!(rx_c.try_recv(), Ok(()));
        assert!(rx_b.try_recv().is_err());
        assert_eq!(start(&mut reg, "/ws/b", 4799), 4702);
    });
}

#[test]
fn stop_all_without_exemption_empties() {
    runtime().block_on(async {
        let mut reg = Registry::new();
        start(&mut reg, "/ws/a", 4801);
        start(&mut reg, "/ws/b", 4802);
        let stopped = stop_all_gg_web(&mut reg, None);
        assert_eq!(stopped.len(), 2);
        assert!(stopped.iter().all(|e| !e.instance.is_armed()));
        assert!(!reg.contains(&instance_key("/ws/a")));
        assert!(!reg.contains(&instance_key("/ws/b")));
    });
}

#[test]
fn stop_all_with_unknown_exemption_stops_everything() {
    runtime().block_on(async {
        let mut reg = Registry::new();
        let (a, mut rx_a) = running_instance(4851);
        complete_start(&mut reg, instance_key("/ws/a"), a);
        let stopped = stop_all_gg_web(&mut reg, Some("/ws/unknown".to_string()));
        assert_eq!(stopped.len(), 1);
        assert!(!reg.contains(&instance_key("/ws/a")));
        assert!(!reg.contains(&instance_key("/ws/unknown")));
        assert_eq!(rx_a.try_recv(), Ok(()));
    });
}

#[test]
fn lookup_step_follows_the_running_flag() {
    runtime().block_on(async {
        let mut reg = Registry::new();
        let key = instance_key("/ws/l");
        assert_eq!(reg.lookup_step(&key, true), None);
        let (inst, _rx) = running_instance(4861);
        reg.insert(key.clone(), inst);
        assert_eq!(reg.lookup_step(&key, true), Some(4861));
        assert_eq!(reg.lookup_step(&key, false), None);
        assert_eq!(reg.lookup(&key), Some(4861));
    });
}

#[test]
fn stop_all_on_empty_registry() {
    let mut reg = Registry::new();
    assert!(stop_all_gg_web(&mut reg, Some("/ws/none".to_string())).is_empty());
    assert!(!reg.contains(&instance_key("/ws/none")));
}

#[test]
fn distinct_keys_get_own_ports() {
    runtime().block_on(async {
        let mut reg = Registry::new();
        let k1 = instance_key("/ws/one");
        let k2 = instance_key("/ws/two");
        assert!(matches!(begin_start(&mut reg, &k1), StartStep::Launch));
        assert!(matches!(begin_start(&mut reg, &k2), StartStep::Launch));
        let (i2, _r2) = running_instance(4902);
        let (i1, _r1) = running_instance(4901);
        complete_start(&mut reg, k2.clone(), i2);
        complete_start(&mut reg, k1.clone(), i1);
        assert_eq!(reg.port_of(&k1), Some(4901));
        assert_eq!(reg.port_of(&k2), Some(4902));
    });
}

#[test]
fn insert_overwrites_existing_key() {
    runtime().block_on(async {
        let mut reg = Registry::new();
        let key = instance_key("/ws/o");
        let (i1, _r1) = running_instance(5001);
        let (i2, _r2) = running_instance(5002);
        reg.insert(key.clone(), i1);
        reg.insert(key.clone(), i2);
        assert_eq!(reg.port_of(&key), Some(5002));
        assert!(reg.remove(&key).is_some());
        assert!(reg.remove(&key).is_none());
    });
}

#[test]
fn fire_twice_is_noop() {
    runtime().block_on(async {
        let (mut inst, mut rx) = running_instance(5101);
        assert!(inst.is_armed());
        inst.fire_shutdown();
        assert!(!inst.is_armed());
        inst.fire_shutdown();
        assert!(!inst.is_armed());
        assert_eq!(inst.port(), 5101);
        assert_eq!(rx.try_recv(), Ok(()));
    });
}

#[test]
fn fire_after_receiver_gone_is_noop() {
    runtime().block_on(async {
        let (mut inst, rx) = running_instance(5201);
        drop(rx);
        inst.fire_shutdown();
        inst.fire_shutdown();
        assert!(!inst.is_armed());
    });
}
