use summars::opts::Opt;
use summars::states::{ChannelState, ShortChannelState};
use summars::util::make_channel_flags;

#[test]
fn test_display() {
    let opening = ShortChannelState(ChannelState::OPENINGD).to_string();
    let await_lock = ShortChannelState(ChannelState::CHANNELD_AWAITING_LOCKIN).to_string();
    let ok = ShortChannelState(ChannelState::CHANNELD_NORMAL).to_string();
    let shutting_down = ShortChannelState(ChannelState::CHANNELD_SHUTTING_DOWN).to_string();
    let closingd_sigex = ShortChannelState(ChannelState::CLOSINGD_SIGEXCHANGE).to_string();
    let closingd_done = ShortChannelState(ChannelState::CLOSINGD_COMPLETE).to_string();
    let await_unilateral = ShortChannelState(ChannelState::AWAITING_UNILATERAL).to_string();
    let funding_spend = ShortChannelState(ChannelState::FUNDING_SPEND_SEEN).to_string();
    let onchain = ShortChannelState(ChannelState::ONCHAIN).to_string();
    let dual_open = ShortChannelState(ChannelState::DUALOPEND_OPEN_INIT).to_string();
    let dual_comitted = ShortChannelState(ChannelState::DUALOPEND_OPEN_COMMITTED).to_string();
    let dual_commit_rdy = ShortChannelState(ChannelState::DUALOPEND_OPEN_COMMIT_READY).to_string();
    let dual_await = ShortChannelState(ChannelState::DUALOPEND_AWAITING_LOCKIN).to_string();
    let await_splice = ShortChannelState(ChannelState::CHANNELD_AWAITING_SPLICE).to_string();

    assert_eq!(opening.parse::<ShortChannelState>().unwrap().0, ChannelState::OPENINGD);
    assert_eq!(
        await_lock.parse::<ShortChannelState>().unwrap().0,
        ChannelState::CHANNELD_AWAITING_LOCKIN
    );
    assert_eq!(ok.parse::<ShortChannelState>().unwrap().0, ChannelState::CHANNELD_NORMAL);
    assert_eq!(
        shutting_down.parse::<ShortChannelState>().unwrap().0,
        ChannelState::CHANNELD_SHUTTING_DOWN
    );
    assert_eq!(
        closingd_sigex.parse::<ShortChannelState>().unwrap().0,
        ChannelState::CLOSINGD_SIGEXCHANGE
    );
    assert_eq!(
        closingd_done.parse::<ShortChannelState>().unwrap().0,
        ChannelState::CLOSINGD_COMPLETE
    );
    assert_eq!(
        await_unilateral.parse::<ShortChannelState>().unwrap().0,
        ChannelState::AWAITING_UNILATERAL
    );
    assert_eq!(
        funding_spend.parse::<ShortChannelState>().unwrap().0,
        ChannelState::FUNDING_SPEND_SEEN
    );
    assert_eq!(onchain.parse::<ShortChannelState>().unwrap().0, ChannelState::ONCHAIN);
    assert_eq!(
        dual_open.parse::<ShortChannelState>().unwrap().0,
        ChannelState::DUALOPEND_OPEN_INIT
    );
    assert_eq!(
        dual_comitted.parse::<ShortChannelState>().unwrap().0,
        ChannelState::DUALOPEND_OPEN_COMMITTED
    );
    assert_eq!(
        dual_commit_rdy.parse::<ShortChannelState>().unwrap().0,
        ChannelState::DUALOPEND_OPEN_COMMIT_READY
    );
    assert_eq!(
        dual_await.parse::<ShortChannelState>().unwrap().0,
        ChannelState::DUALOPEND_AWAITING_LOCKIN
    );
    assert_eq!(
        await_splice.parse::<ShortChannelState>().unwrap().0,
        ChannelState::CHANNELD_AWAITING_SPLICE
    );
}

#[test]
fn test_opt_from_key() {
    for opt in Opt::iter() {
        assert_eq!(Opt::from_key(opt.as_key()).unwrap(), opt);
    }
}

#[test]
fn util_test_flags() {
    assert_eq!(make_channel_flags(false, false), "[__]");
    assert_eq!(make_channel_flags(true, false), "[P_]");
    assert_eq!(make_channel_flags(false, true), "[_O]");
    assert_eq!(make_channel_flags(true, true), "[PO]");
}
