use tgrade_contracts::common::{BlockInfo, Decimal};
use tgrade_contracts::payments::payment_transfers;
use tgrade_contracts::payments::{
    hour_after_midnight, migrate_payments_config, payment_due, record_empty_payment, settle_payment, Payment,
    Payments, PaymentsConfig, PaymentsError, Period, Settlement,
};

const JAN_1_2022: u64 = 1_640_995_200;
const FEB_1_2022: u64 = 1_643_673_600;
const DAY: u64 = 86_400;

fn block_at_secs(secs: u64) -> BlockInfo {
    BlockInfo { height: secs / 5, time: secs * 1_000_000_000 }
}

fn config(period: Period, amount: u128) -> PaymentsConfig {
    PaymentsConfig {
        oc_addr: "oc".to_string(),
        ap_addr: "ap".to_string(),
        engagement_addr: "engagement".to_string(),
        denom: "utgd".to_string(),
        payment_amount: amount,
        payment_period: period,
        funds_ratio: Decimal::percent(1),
    }
}

#[test]
fn period_lengths() {
    assert_eq!(Period::Daily.seconds(), 86400);
    assert_eq!(Period::Monthly.seconds(), 86400 * 28);
    assert_eq!(Period::Yearly.seconds(), 86400 * 365);
}

#[test]
fn should_apply_follows_the_calendar() {
    let daily = config(Period::Daily, 1);
    let monthly = config(Period::Monthly, 1);
    let yearly = config(Period::Yearly, 1);
    // new year, half past midnight
    let t = JAN_1_2022 + 1800;
    assert!(daily.should_apply(t) && monthly.should_apply(t) && yearly.should_apply(t));
    // first of February, ten past midnight
    let t = FEB_1_2022 + 600;
    assert!(daily.should_apply(t) && monthly.should_apply(t) && !yearly.should_apply(t));
    // second of February at midnight
    let t = FEB_1_2022 + DAY;
    assert!(daily.should_apply(t) && !monthly.should_apply(t) && !yearly.should_apply(t));
    // one in the morning
    let t = FEB_1_2022 + 3600;
    assert!(!daily.should_apply(t) && !monthly.should_apply(t));
    assert!(hour_after_midnight(FEB_1_2022 + 3599));
    assert!(!hour_after_midnight(FEB_1_2022 + 3600));
}

#[test]
fn payment_due_waits_for_the_period() {
    let monthly = config(Period::Monthly, 1);
    assert!(payment_due(&monthly, &block_at_secs(FEB_1_2022 + 60), None));
    // paid a month ago at midnight: more than a period minus an hour ago
    assert!(payment_due(&monthly, &block_at_secs(FEB_1_2022 + 60), Some(JAN_1_2022)));
    // paid an hour ago
    assert!(!payment_due(&monthly, &block_at_secs(FEB_1_2022 + 60), Some(FEB_1_2022 - 3600)));
    // not the first hour of the day
    assert!(!payment_due(&monthly, &block_at_secs(FEB_1_2022 + 3600), None));
}

#[test]
fn settle_pays_members_when_funds_cover_them() {
    let mut payments = Payments::new();
    let cfg = config(Period::Daily, 1000);
    let s = settle_payment(&mut payments, &cfg, &block_at_secs(JAN_1_2022), 10_000, 3).unwrap();
    assert_eq!(s, Settlement { num_members: 3, member_pay: 1000, engagement_rewards: 7000 });
    assert_eq!(
        payments.payments,
        vec![Payment { num_members: 3, amount: 1000, payment_time: JAN_1_2022, payment_height: JAN_1_2022 / 5 }]
    );
}

#[test]
fn settle_pays_nobody_when_funds_do_not_cover_all() {
    let mut payments = Payments::new();
    let cfg = config(Period::Daily, 1000);
    let s = settle_payment(&mut payments, &cfg, &block_at_secs(JAN_1_2022), 2000, 3).unwrap();
    assert_eq!(s, Settlement { num_members: 3, member_pay: 0, engagement_rewards: 2000 });
    let s = settle_payment(&mut payments, &cfg, &block_at_secs(JAN_1_2022 + DAY), 2000, 0).unwrap();
    assert_eq!(s, Settlement { num_members: 0, member_pay: 0, engagement_rewards: 2000 });
}

#[test]
fn one_payment_per_second() {
    let mut payments = Payments::new();
    record_empty_payment(&mut payments, &block_at_secs(JAN_1_2022)).unwrap();
    let err = record_empty_payment(&mut payments, &block_at_secs(JAN_1_2022)).unwrap_err();
    assert_eq!(err, PaymentsError::PaymentAlreadyExists(JAN_1_2022));
    assert_eq!(payments.last(), Some(JAN_1_2022));
}

#[test]
fn payments_are_listed_by_time() {
    let mut payments = Payments::new();
    assert_eq!(payments.last(), None);
    for t in [5u64, 1, 3, 2, 4] {
        payments.create_payment(1, t as u128, &block_at_secs(t)).unwrap();
    }
    assert_eq!(payments.last(), Some(5));
    let all = payments.query_payments(None, None);
    assert_eq!(all.iter().map(|p| p.payment_time).collect::<Vec<_>>(), vec![1, 2, 3, 4, 5]);
    let page = payments.query_payments(Some(2), Some(2));
    assert_eq!(page.iter().map(|p| p.payment_time).collect::<Vec<_>>(), vec![3, 4]);
    assert_eq!(Payment::new(2, 7, 3_000_000_001, 9), Payment { num_members: 2, amount: 7, payment_time: 3, payment_height: 9 });
}

#[test]
fn migration_can_alter_cfg() {
    let old = "0.15.2";
    let mut cfg = config(Period::Monthly, 100);
    cfg.funds_ratio = Decimal::zero();
    migrate_payments_config(&mut cfg, Some(2500), None, old).unwrap();
    assert_eq!(cfg.payment_amount, 2500);
    // contracts of 0.16.0 or older get 1%
    assert_eq!(cfg.funds_ratio, Decimal::percent(1));

    let newer = "0.17.0";
    let mut cfg = config(Period::Monthly, 100);
    cfg.funds_ratio = Decimal::percent(3);
    migrate_payments_config(&mut cfg, None, None, newer).unwrap();
    assert_eq!(cfg.payment_amount, 100);
    assert_eq!(cfg.funds_ratio, Decimal::percent(3));

    let err = migrate_payments_config(&mut cfg, Some(5), Some(Decimal::percent(101)), newer).unwrap_err();
    assert_eq!(err, PaymentsError::WrongFundsRatio);
    assert_eq!(cfg.payment_amount, 100);
    migrate_payments_config(&mut cfg, None, Some(Decimal::percent(100)), newer).unwrap();
    assert_eq!(cfg.funds_ratio, Decimal::percent(100));
}

#[test]
fn migration_refuses_bad_version() {
    let mut cfg = config(Period::Monthly, 100);
    assert_eq!(migrate_payments_config(&mut cfg, Some(5), None, "v-next"), Err(PaymentsError::InvalidVersion));
    assert_eq!(cfg, config(Period::Monthly, 100));
}

#[test]
fn transfers_pay_members_then_engagement() {
    let members = vec!["a".to_string(), "b".to_string()];
    let paid = Settlement { num_members: 2, member_pay: 30, engagement_rewards: 40 };
    assert_eq!(
        payment_transfers(&members, &paid, &"engagement".to_string()),
        vec![("a".to_string(), 30), ("b".to_string(), 30), ("engagement".to_string(), 40)]
    );
    let unpaid = Settlement { num_members: 2, member_pay: 0, engagement_rewards: 100 };
    assert_eq!(payment_transfers(&members, &unpaid, &"engagement".to_string()), vec![("engagement".to_string(), 100)]);
}
