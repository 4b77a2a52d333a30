use nbterm::supervisor::{
    connection_file_name, find_kernelspec, first_occurrences, kernel_name_or_default,
    new_descriptor, restart_kernel_name, select_kernelspec, LaunchError,
};

fn names(v: &[&str]) -> Vec<String> {
    v.iter().map(|s| s.to_string()).collect()
}

#[test]
fn default_kernel_is_python3() {
    assert_eq!(kernel_name_or_default(None), "python3");
    assert_eq!(kernel_name_or_default(Some("ir")), "ir");
}

#[test]
fn find_kernelspec_picks_first_match() {
    let n = names(&["ir", "python3", "python3"]);
    assert_eq!(find_kernelspec(&n, "python3").ok(), Some(1));
    match find_kernelspec(&n, "julia") {
        Err(LaunchError::KernelspecNotFound { name, available }) => {
            assert_eq!(name, "julia");
            assert_eq!(available, n);
        }
        _ => panic!("expected not found"),
    }
}

#[test]
fn select_kernelspec_with_nothing_installed() {
    assert!(matches!(select_kernelspec(&vec![], "python3"), Err(LaunchError::NoKernelspecs)));
    assert_eq!(select_kernelspec(&names(&["python3"]), "python3").ok(), Some(0));
}

#[test]
fn first_occurrences_drop_later_duplicates() {
    let n = names(&["python3", "ir", "python3", "julia", "ir"]);
    assert_eq!(first_occurrences(&n), vec![0, 1, 3]);
    assert_eq!(first_occurrences(&vec![]), Vec::<usize>::new());
}

#[test]
fn descriptor_takes_five_distinct_ports() {
    let d = new_descriptor(&vec![5000, 5001, 5002, 5003, 5004], "python3".to_string()).ok().unwrap();
    assert_eq!(d.ip, "127.0.0.1");
    assert_eq!(
        (d.shell_port, d.iopub_port, d.stdin_port, d.control_port, d.hb_port),
        (5000, 5001, 5002, 5003, 5004)
    );
    assert_eq!(d.key.len(), 36);
    assert_eq!(d.signature_scheme, "hmac-sha256");
    assert_eq!(d.kernel_name.as_deref(), Some("python3"));
    assert_eq!(restart_kernel_name(&d), "python3");
    let d2 = new_descriptor(&vec![5000, 5001, 5002, 5003, 5004], "python3".to_string()).ok().unwrap();
    assert_ne!(d.key, d2.key);
}

#[test]
fn descriptor_refuses_short_or_repeated_ports() {
    assert!(matches!(new_descriptor(&vec![1, 2, 3, 4], "k".to_string()), Err(LaunchError::NoFreePorts)));
    assert!(matches!(
        new_descriptor(&vec![1, 2, 3, 4, 2], "k".to_string()),
        Err(LaunchError::NoFreePorts)
    ));
}

#[test]
fn connection_file_names_are_fresh() {
    let a = connection_file_name();
    let b = connection_file_name();
    assert!(a.starts_with("kernel-") && a.ends_with(".json"));
    assert_eq!(a.len(), 48);
    assert_ne!(a, b);
}
