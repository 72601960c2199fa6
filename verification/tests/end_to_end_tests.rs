use gpu_waiter::idlist::gpu_list_string;
use gpu_waiter::schedule::{get_idle_gpu, scheduler_step, SchedulerDecision};
use gpu_waiter::supervise::should_bind_env;
use gpu_waiter::template::process_command_template;

#[test]
fn two_of_three_idle_resources() {
    // Request 2 resources while the backend reports 3 idle (0, 1, 2): the
    // claim is [0, 1] and the environment binding value is "0,1".
    let devices = vec![(0u32, true), (1u32, true), (2u32, true)];
    let idle = get_idle_gpu(&devices);
    let claim = match scheduler_step(2, &idle, false) {
        SchedulerDecision::Claim(c) => c,
        _ => panic!("expected a claim"),
    };
    assert_eq!(claim, vec![0u32, 1]);
    assert_eq!(gpu_list_string(&claim), "0,1");
}

#[test]
fn templated_command_skips_env_binding() {
    // A command using the template gets the identifiers positionally and no
    // environment binding.
    let claim = vec![0u32, 1];
    let subst = gpu_list_string(&claim);
    let r = process_command_template("run --gpu {}", &subst).unwrap();
    assert_eq!(r.command, "run --gpu 0,1");
    assert_eq!(r.total_count, 1);
    let has_template = r.template_count > 0;
    assert!(has_template);
    assert!(!should_bind_env(has_template, false));
}

#[test]
fn plain_command_gets_env_binding() {
    // A command without markers keeps the environment binding "0,1".
    let claim = vec![0u32, 1];
    let subst = gpu_list_string(&claim);
    let r = process_command_template("run", &subst).unwrap();
    assert_eq!(r.command, "run");
    let has_template = r.template_count > 0;
    assert!(!has_template);
    assert!(should_bind_env(has_template, false));
    assert_eq!(subst, "0,1");
}

#[test]
fn forced_env_binding_with_template() {
    let claim = vec![0u32, 1];
    let subst = gpu_list_string(&claim);
    let r = process_command_template("run --gpu {}", &subst).unwrap();
    assert!(r.template_count > 0);
    assert!(should_bind_env(r.template_count > 0, true));
}
