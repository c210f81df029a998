use at_webserver::config::{Config, ScheduleConfig};
use at_webserver::schedule::{
    build_lte_command, build_nr_command, cereg_registered, creg_registered, get_current_mode, lock_plan,
    mode_at, split_list, unlock_plan, ModeAction, PlanStep, ScheduleMode, ScheduleState,
};

fn sched() -> ScheduleConfig {
    let mut c = Config::default().schedule_config;
    c.enabled = true;
    c
}

fn hm(h: u32, m: u32) -> u32 {
    h * 3600 + m * 60
}

fn cmds(p: &[PlanStep]) -> Vec<String> {
    p.iter().map(|s| s.command.clone()).collect()
}

fn s(v: &[&str]) -> Vec<String> {
    v.iter().map(|x| x.to_string()).collect()
}

#[test]
fn night_window_across_midnight() {
    let c = sched();
    assert_eq!(mode_at(&c, hm(22, 0)), Some(ScheduleMode::Night));
    assert_eq!(mode_at(&c, hm(23, 59)), Some(ScheduleMode::Night));
    assert_eq!(mode_at(&c, 0), Some(ScheduleMode::Night));
    assert_eq!(mode_at(&c, hm(5, 59)), Some(ScheduleMode::Night));
    assert_eq!(mode_at(&c, hm(6, 0)), Some(ScheduleMode::Day));
    assert_eq!(mode_at(&c, hm(21, 59)), Some(ScheduleMode::Day));
}

#[test]
fn night_window_within_a_day_and_disabled_modes() {
    let mut c = sched();
    c.night_start = "01:30".to_string();
    c.night_end = "04:00".to_string();
    assert_eq!(mode_at(&c, hm(1, 30)), Some(ScheduleMode::Night));
    assert_eq!(mode_at(&c, hm(4, 0)), Some(ScheduleMode::Day));
    c.day_enabled = false;
    assert_eq!(mode_at(&c, hm(12, 0)), None);
    c.night_enabled = false;
    assert_eq!(mode_at(&c, hm(2, 0)), None);
}

#[test]
fn unparsable_window_uses_defaults() {
    let mut c = sched();
    c.night_start = "late".to_string();
    c.night_end = "25:99".to_string();
    assert_eq!(mode_at(&c, hm(23, 0)), Some(ScheduleMode::Night));
    assert_eq!(mode_at(&c, hm(7, 0)), Some(ScheduleMode::Day));
}

#[test]
fn current_mode_follows_the_clock() {
    let c = sched();
    assert!(get_current_mode(&c).is_some());
}

#[test]
fn lists_are_split_and_trimmed() {
    assert_eq!(split_list(" 1, 3 ,,28 "), s(&["1", "3", "28"]));
    assert!(split_list("").is_empty());
}

#[test]
fn lte_commands() {
    assert_eq!(build_lte_command(3, &s(&["1", "3"]), "", ""), "AT^LTEFREQLOCK=3,0,2,\"1,3\"\r\n");
    assert_eq!(build_lte_command(1, &s(&["3"]), "1300", ""), "AT^LTEFREQLOCK=1,0,1,\"3\",\"1300\"\r\n");
    assert_eq!(
        build_lte_command(2, &s(&["3", "1"]), "1300, 100", "210,7"),
        "AT^LTEFREQLOCK=2,0,2,\"3,1\",\"1300,100\",\"210,7\"\r\n"
    );
    assert_eq!(build_lte_command(0, &s(&["3"]), "", ""), "AT^LTEFREQLOCK=0\r\n");
}

#[test]
fn count_mismatch_unlocks() {
    assert_eq!(build_lte_command(1, &s(&["3", "1"]), "1300", ""), "AT^LTEFREQLOCK=0\r\n");
    assert_eq!(build_lte_command(2, &s(&["3"]), "1300", "1,2"), "AT^LTEFREQLOCK=0\r\n");
    assert_eq!(build_nr_command(1, &s(&["78"]), "", "", ""), "AT^NRFREQLOCK=0\r\n");
    assert_eq!(build_nr_command(2, &s(&["78"]), "627264", "1", ""), "AT^NRFREQLOCK=0\r\n");
}

#[test]
fn nr_commands() {
    assert_eq!(build_nr_command(3, &s(&["78", "41"]), "", "", ""), "AT^NRFREQLOCK=3,0,2,\"78,41\"\r\n");
    assert_eq!(
        build_nr_command(2, &s(&["78"]), "627264", "1", "321"),
        "AT^NRFREQLOCK=2,0,1,\"78\",\"627264\",\"1\",\"321\"\r\n"
    );
}

#[test]
fn night_to_day_switches_once() {
    let mut c = sched();
    c.night_lte_bands = "3".to_string();
    c.night_nr_bands = "78".to_string();
    c.day_lte_bands = "1,3".to_string();
    c.day_nr_bands = "41,78".to_string();
    let mut st = ScheduleState::new(0);
    let night = mode_at(&c, hm(5, 59));
    assert_eq!(st.mode_action(night), ModeAction::Apply(ScheduleMode::Night));
    st.on_mode_result(night, true);
    assert_eq!(st.mode_action(mode_at(&c, hm(5, 59))), ModeAction::Keep);
    let day = mode_at(&c, hm(6, 0));
    assert_eq!(st.mode_action(day), ModeAction::Apply(ScheduleMode::Day));
    st.on_mode_result(day, true);
    assert_eq!(st.mode_action(mode_at(&c, hm(6, 1))), ModeAction::Keep);
    assert_eq!(st.switch_count, 2);
    let plan = lock_plan(&c, ScheduleMode::Day);
    assert_eq!(
        cmds(&plan),
        s(&[
            "AT+CFUN=0\r\n",
            "AT^LTEFREQLOCK=3,0,2,\"1,3\"\r\n",
            "AT^NRFREQLOCK=3,0,2,\"41,78\"\r\n",
            "AT+CFUN=1\r\n",
        ])
    );
    assert_eq!(plan.iter().map(|p| p.pause_secs).collect::<Vec<_>>(), vec![2, 1, 1, 5]);
    assert!(plan[0].pause_only_on_success && !plan[1].pause_only_on_success);
}

#[test]
fn plan_without_bands_unlocks_when_configured() {
    let mut c = sched();
    c.toggle_airplane = false;
    assert_eq!(cmds(&lock_plan(&c, ScheduleMode::Night)), s(&["AT^LTEFREQLOCK=0\r\n", "AT^NRFREQLOCK=0\r\n"]));
    c.unlock_nr = false;
    assert_eq!(cmds(&lock_plan(&c, ScheduleMode::Night)), s(&["AT^LTEFREQLOCK=0\r\n"]));
    c.night_lte_bands = " , ".to_string();
    assert!(lock_plan(&c, ScheduleMode::Night).is_empty());
}

#[test]
fn full_unlock_plan() {
    let c = sched();
    assert_eq!(
        cmds(&unlock_plan(&c)),
        s(&["AT+CFUN=0\r\n", "AT^LTEFREQLOCK=0\r\n", "AT^NRFREQLOCK=0\r\n", "AT+CFUN=1\r\n"])
    );
}

#[test]
fn leaving_all_modes_unlocks() {
    let mut st = ScheduleState::new(0);
    st.on_mode_result(Some(ScheduleMode::Day), true);
    assert_eq!(st.mode_action(None), ModeAction::UnlockAll);
    st.on_mode_result(None, false);
    assert_eq!(st.current, Some(ScheduleMode::Day));
}

#[test]
fn service_loss_triggers_recovery_after_timeout() {
    let mut st = ScheduleState::new(100);
    assert!(!st.on_service(false, 200, 180));
    assert!(st.on_service(false, 280, 180));
    assert_eq!(st.last_service, 280);
    assert!(!st.on_service(true, 300, 180));
    assert_eq!(st.last_service, 300);
}

#[test]
fn registration_answers() {
    assert!(creg_registered("+CREG: 0,1\r\nOK"));
    assert!(creg_registered("+CREG: 0,5"));
    assert!(!creg_registered("+CREG: 0,2"));
    assert!(creg_registered("+CREG: 2,1,\"1A2B\",\"0C3D4E\",7"));
    assert!(!creg_registered("+CREG: 2,15"));
    assert!(cereg_registered("+CEREG: 1,5"));
    assert!(cereg_registered("+CEREG: 0,5"));
    assert!(!cereg_registered("+CEREG: 0,0"));
}
