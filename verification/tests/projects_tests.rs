use slurm_monitor::projects::{
    account_list, build_assoc_command, build_command, build_qos_command, build_sreport_command,
    filter_expired, merge_qos, merge_sreport, parse, projects_plan, projects_result, ProjectInfo,
};

#[test]
fn parses_full_field_line_with_gpu() {
    let out = "proj-beta|5866769|1.000000|cpu=80851,mem=729536217,gres/gpu=16927,gres/gpuutil=0\n";
    let p = parse(out);
    assert_eq!(p.len(), 1);
    assert_eq!(
        p[0],
        ProjectInfo {
            account: "proj-beta".into(),
            raw_usage: "5866769".into(),
            gpu_hours: "0".into(),
            gpu_hours_allocated: "0".into(),
            users: Vec::new(),
            gpu_usage: "16927".into(),
            cpu_hours: "0".into(),
            cpu_hours_allocated: "0".into(),
            billing_hours: "0".into(),
            billing_hours_allocated: "0".into(),
        }
    );
}

#[test]
fn parses_two_field_line_without_tres() {
    let p = parse("proj-a|123456\n");
    assert_eq!(p.len(), 1);
    assert_eq!(p[0].gpu_usage, "0");
}

#[test]
fn parses_gpu_with_type_suffix() {
    let p = parse("proj-a|1|0.0|gres/gpu:a100=555,mem=1\n");
    assert_eq!(p[0].gpu_usage, "555");
}

#[test]
fn gpu_defaults_to_zero_when_tres_has_no_gpu() {
    let p = parse("proj-a|1|0.0|mem=4096,billing=99\n");
    assert_eq!(p[0].gpu_usage, "0");
}

#[test]
fn skips_empty_accounts_and_malformed_lines() {
    let p = parse("|123|0|cpu=1\nproj-a|1|0|gres/gpu=2\nnot-a-line\n");
    assert_eq!(p.len(), 1);
    assert_eq!(p[0].account, "proj-a");
}

#[test]
fn parses_multiple_accounts() {
    let p = parse("proj-a|10|0.5|gres/gpu=2,mem=1\nproj-b|20|0.2|gres/gpu=4,mem=1\n");
    assert_eq!(p.len(), 2);
    assert_eq!(p[1].account, "proj-b");
    assert_eq!(p[1].gpu_usage, "4");
}

#[test]
fn empty_output_yields_no_projects() {
    assert_eq!(parse(""), Vec::<ProjectInfo>::new());
    assert_eq!(parse("\n\n"), Vec::<ProjectInfo>::new());
}

fn project(account: &str, raw: &str, gpu_usage: &str) -> ProjectInfo {
    ProjectInfo {
        account: account.into(),
        raw_usage: raw.into(),
        gpu_hours: "0".into(),
        gpu_hours_allocated: "0".into(),
        users: Vec::new(),
        gpu_usage: gpu_usage.into(),
        cpu_hours: "0".into(),
        cpu_hours_allocated: "0".into(),
        billing_hours: "0".into(),
        billing_hours_allocated: "0".into(),
    }
}

fn base_projects() -> Vec<ProjectInfo> {
    vec![project("proj-alpha", "0", "0"), project("proj-beta", "5874349", "16922")]
}

#[test]
fn merges_sreport_totals_and_users() {
    let mut projects = base_projects();
    let out = "\
Cluster|Account|Login|Proper Name|TRES Name|Used
cluster-x|proj-alpha|||cpu|164940
cluster-x|proj-alpha|bob|Bob Doe|cpu|32900
cluster-x|proj-alpha|alice|Alice Doe|cpu|0
cluster-x|proj-alpha|||gres/gpu|8247
cluster-x|proj-alpha|bob|Bob Doe|gres/gpu|1645
cluster-x|proj-alpha|alice|Alice Doe|gres/gpu|0
cluster-x|proj-beta|||cpu|21560
cluster-x|proj-beta|alice|Alice Doe|cpu|21560
cluster-x|proj-beta|||gres/gpu|1078
cluster-x|proj-beta|alice|Alice Doe|gres/gpu|1078
";
    merge_sreport(&mut projects, out);
    assert_eq!(projects[0].gpu_hours, "8247");
    assert_eq!(projects[0].cpu_hours, "164940");
    assert_eq!(projects[0].users.len(), 2);
    assert_eq!(projects[0].users[0].login, "bob");
    assert_eq!(projects[0].users[0].gpu_hours, "1645");
    assert_eq!(projects[0].users[0].cpu_hours, "32900");
    assert_eq!(projects[1].gpu_hours, "1078");
    assert_eq!(projects[1].cpu_hours, "21560");
    assert_eq!(projects[1].users.len(), 1);
    assert_eq!(projects[1].users[0].gpu_hours, "1078");
    assert_eq!(projects[1].users[0].cpu_hours, "21560");
}

#[test]
fn merges_sreport_user_only_rows_sum_into_totals() {
    let mut projects = base_projects();
    let out = "\
Cluster|Account|Login|Proper Name|TRES Name|Used
devana|proj-alpha|bob|Bob Doe|cpu|32900
devana|proj-alpha|bob|Bob Doe|gres/gpu|1645
devana|proj-alpha|alice|Alice Doe|cpu|5100
devana|proj-alpha|alice|Alice Doe|gres/gpu|200
devana|proj-beta|alice|Alice Doe|cpu|21560
devana|proj-beta|alice|Alice Doe|gres/gpu|1078
";
    merge_sreport(&mut projects, out);
    assert_eq!(projects[0].gpu_hours, "1845");
    assert_eq!(projects[0].cpu_hours, "38000");
    assert_eq!(projects[1].gpu_hours, "1078");
    assert_eq!(projects[1].cpu_hours, "21560");
}

#[test]
fn merges_sreport_cpu_only_user_rows() {
    let mut projects = base_projects();
    let out = "\
Cluster|Account|Login|Proper Name|TRES Name|Used
cluster-x|proj-alpha|bob|Bob Doe|cpu|100
";
    merge_sreport(&mut projects, out);
    assert_eq!(projects[0].users.len(), 1);
    assert_eq!(projects[0].users[0].cpu_hours, "100");
    assert_eq!(projects[0].users[0].gpu_hours, "0");
}

#[test]
fn merges_sreport_skipping_headers_and_unknown_accounts() {
    let mut projects = base_projects();
    let out = "\
--------------------------------------------------------------------------------
Cluster|Account|Login|Proper Name|TRES Name|Used
cluster-x|unknown-acct|||gres/gpu|999
cluster-x|proj-beta|||cpu|84
cluster-x|proj-beta|||gres/gpu|42
";
    merge_sreport(&mut projects, out);
    assert_eq!(projects[0].gpu_hours, "0");
    assert_eq!(projects[0].cpu_hours, "0");
    assert_eq!(projects[1].gpu_hours, "42");
    assert_eq!(projects[1].cpu_hours, "84");
    assert!(projects[1].users.is_empty());
}

#[test]
fn merges_qos_gpu_and_cpu_budget_into_allocation() {
    let mut projects = base_projects();
    let out = "\
proj-alpha|cpu=5308080,gres/gpu=712200
proj-beta|cpu=5308440,gres/gpu=336960
";
    merge_qos(&mut projects, out);
    assert_eq!(projects[0].gpu_hours_allocated, "11870");
    assert_eq!(projects[0].cpu_hours_allocated, "88468");
    assert_eq!(projects[1].gpu_hours_allocated, "5616");
    assert_eq!(projects[1].cpu_hours_allocated, "88474");
}

#[test]
fn merges_sreport_billing_rows() {
    let mut projects = base_projects();
    let out = "\
Cluster|Account|Login|Proper Name|TRES Name|Used
devana|proj-alpha|||billing|5000
devana|proj-alpha|bob|Bob Doe|billing|24215
";
    merge_sreport(&mut projects, out);
    assert_eq!(projects[0].billing_hours, "5000");
}

#[test]
fn merges_sreport_billing_sums_user_rows() {
    let mut projects = base_projects();
    let out = "\
Cluster|Account|Login|Proper Name|TRES Name|Used
devana|proj-alpha|bob|Bob Doe|billing|100.5
devana|proj-alpha|alice|Alice Doe|billing|200
";
    merge_sreport(&mut projects, out);
    assert_eq!(projects[0].billing_hours, "300.5");
}

#[test]
fn merges_qos_billing_budget_sums_gpu_variant() {
    let mut projects = base_projects();
    let out = "\
proj-gpu|billing=300000
proj-gpu_gpu|billing=19200000
proj-beta|cpu=5308440,gres/gpu=336960
";
    projects[0].account = "proj-gpu".into();
    merge_qos(&mut projects, out);
    assert_eq!(projects[0].billing_hours_allocated, "325000");
    assert_eq!(projects[0].gpu_hours_allocated, "0");
    assert_eq!(projects[1].gpu_hours_allocated, "5616");
    assert_eq!(projects[1].billing_hours_allocated, "0");
}

#[test]
fn merges_qos_cpu_only_budget() {
    let mut projects = base_projects();
    merge_qos(&mut projects, "proj-alpha|cpu=5308080\nproj-beta|\n");
    assert_eq!(projects[0].gpu_hours_allocated, "0");
    assert_eq!(projects[0].cpu_hours_allocated, "88468");
    assert_eq!(projects[1].gpu_hours_allocated, "0");
    assert_eq!(projects[1].cpu_hours_allocated, "0");
}

#[test]
fn filters_accounts_capped_at_zero_nodes() {
    let mut projects = base_projects();
    filter_expired(&mut projects, "proj-alpha|node=0\nproj-beta|cpu=192,node=4,gres/gpu=8\n");
    assert_eq!(projects.len(), 1);
    assert_eq!(projects[0].account, "proj-beta");
}

#[test]
fn keeps_accounts_without_node_limit_or_missing_from_assoc() {
    let mut projects = base_projects();
    filter_expired(&mut projects, "proj-alpha|cpu=100,gres/gpu=4\n");
    assert_eq!(projects.len(), 2);
}

#[test]
fn empty_assoc_output_keeps_all_projects() {
    let mut projects = base_projects();
    filter_expired(&mut projects, "");
    assert_eq!(projects.len(), 2);
}

#[test]
fn builds_assoc_command() {
    let cmd = build_assoc_command("alice", None);
    assert!(cmd.contains("sacctmgr -n show assoc user=alice"));
    assert!(cmd.contains("format=Account,GrpTRES"));
    assert!(cmd.contains("--parsable2"));
}

#[test]
fn builds_qos_command() {
    let cmd = build_qos_command("a1,a2", None);
    assert!(cmd.contains("sacctmgr -n show qos a1,a2,a1_gpu,a2_gpu"));
    assert!(cmd.contains("format=Name,GrpTRESMins"));
    assert!(cmd.contains("--parsable2"));
}

#[test]
fn builds_sreport_command() {
    let cmd = build_sreport_command("a1,a2", Some("~/slurm-custom/slurm/custom_slurm.conf"));
    assert!(cmd.contains("SLURM_CONF=~/slurm-custom/slurm/custom_slurm.conf"));
    assert!(cmd.contains("sreport cluster AccountUtilizationByUser"));
    assert!(cmd.contains("account=a1,a2"));
    assert!(cmd.contains("-T cpu,gres/gpu,billing"));
    assert!(cmd.contains("--parsable2"));
}

#[test]
fn builds_sshare_projects_command() {
    let cmd = build_command("alice", None);
    assert_eq!(
        cmd,
        "bash -lc 'sshare -U -u alice --noheader --parsable2 --format=Account,RawUsage,EffectvUsage,GrpTRESRaw'"
    );
}

#[test]
fn qos_command_skips_blank_names() {
    let cmd = build_qos_command(" a1 ,, a2", None);
    assert!(cmd.contains("show qos a1,a2,a1_gpu,a2_gpu format="));
}

#[test]
fn account_list_joins_with_commas() {
    assert_eq!(account_list(&base_projects()), "proj-alpha,proj-beta");
    assert_eq!(account_list(&[]), "");
}

#[test]
fn node_limit_must_be_exactly_zero() {
    let mut projects = base_projects();
    filter_expired(&mut projects, "proj-alpha|node=00\nproj-beta| node = 0 \n");
    assert_eq!(projects.len(), 1);
    assert_eq!(projects[0].account, "proj-alpha");
}

#[test]
fn merging_keeps_accounts_and_order() {
    let mut projects = base_projects();
    merge_sreport(&mut projects, "c|proj-beta|bob|Bob|cpu|7\nc|proj-alpha|||billing|1e3\n");
    merge_qos(&mut projects, "proj-beta_gpu|billing=90\n");
    assert_eq!(projects.len(), 2);
    assert_eq!(projects[0].account, "proj-alpha");
    assert_eq!(projects[1].account, "proj-beta");
    assert_eq!(projects[0].billing_hours, "1e3");
    assert_eq!(projects[1].cpu_hours, "7");
    assert_eq!(projects[1].billing_hours_allocated, "2");
}

#[test]
fn qos_rounds_half_away_from_zero() {
    let mut projects = base_projects();
    merge_qos(&mut projects, "proj-alpha|gres/gpu=30\nproj-beta|gres/gpu=29\n");
    assert_eq!(projects[0].gpu_hours_allocated, "1");
    assert_eq!(projects[1].gpu_hours_allocated, "0");
}

#[test]
fn user_rows_update_the_listed_user() {
    let mut projects = base_projects();
    merge_sreport(
        &mut projects,
        "c|proj-alpha|bob|Bob Doe|gres/gpu|3\nc|proj-alpha|bob|Bob Doe|billing|4.25\nc|proj-alpha|bob|Bob Doe|cpu|5\n",
    );
    let u = &projects[0].users;
    assert_eq!(u.len(), 1);
    assert_eq!((u[0].gpu_hours.as_str(), u[0].billing_hours.as_str(), u[0].cpu_hours.as_str()), ("3", "4.25", "5"));
    assert_eq!(u[0].name, "Bob Doe");
    assert_eq!(projects[0].gpu_hours, "3");
    assert_eq!(projects[0].billing_hours, "4.25");
    assert_eq!(projects[0].cpu_hours, "5");
}

#[test]
fn projects_query_runs_follow_ups_only_for_remaining_projects() {
    let ps = "proj-alpha|10|0.5|gres/gpu=2\nproj-beta|20|0.2|gres/gpu=4\n";
    let kept = projects_result(ps, Some("proj-alpha|node=0\n"), None, None);
    assert_eq!(kept.len(), 1);
    assert_eq!(kept[0].account, "proj-beta");
    let (sreport, qos) = projects_plan(&kept, Some("/etc/slurm.conf")).unwrap();
    assert_eq!(sreport, build_sreport_command("proj-beta", Some("/etc/slurm.conf")));
    assert_eq!(qos, build_qos_command("proj-beta", Some("/etc/slurm.conf")));

    let none = projects_result(ps, Some("proj-alpha|node=0\nproj-beta|node=0\n"), None, None);
    assert!(none.is_empty());
    assert_eq!(projects_plan(&none, None), None);
    // answers for steps that do not run change nothing
    assert!(projects_result(ps, Some("proj-alpha|node=0\nproj-beta|node=0\n"), Some("c|proj-beta|||cpu|5\n"), None).is_empty());
}

#[test]
fn projects_result_merges_each_answer() {
    let ps = "proj-alpha|10|0.5|gres/gpu=2\nproj-beta|20|0.2|gres/gpu=4\n";
    let sreport = "c|proj-alpha|||cpu|7\nc|proj-alpha|bob|Bob|gres/gpu|3\n";
    let qos = "proj-beta|cpu=600,gres/gpu=120\n";
    let all = projects_result(ps, None, Some(sreport), Some(qos));
    assert_eq!(all.len(), 2);
    assert_eq!(all[0].cpu_hours, "7");
    assert_eq!(all[0].gpu_hours, "3");
    assert_eq!(all[0].users.len(), 1);
    assert_eq!(all[1].cpu_hours_allocated, "10");
    assert_eq!(all[1].gpu_hours_allocated, "2");
    // a failed sreport keeps the sshare figures; a failed QOS keeps "0"
    let partial = projects_result(ps, None, None, None);
    assert_eq!(partial, parse(ps));
    let mut by_hand = parse(ps);
    merge_sreport(&mut by_hand, sreport);
    assert_eq!(projects_result(ps, Some(""), Some(sreport), None), by_hand);
}
