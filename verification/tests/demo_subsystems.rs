use rust_kernel_game_engine_kit::subsystems::hello::{
    Hello, HelloCounters, TOPIC_ECHO, TOPIC_TICK_PULSE,
};
use rust_kernel_game_engine_kit::subsystems::tock::{Tock, TockCounters};

#[test]
fn hello_pulses_every_thirtieth_tick_and_echoes_every_tenth() {
    let mut hello = Hello::new(HelloCounters::default());
    assert_eq!(hello.name(), "hello");
    assert!(hello.dependencies().is_empty());
    hello.init(Some(7));
    let mut pulses = Vec::new();
    let mut echoes = Vec::new();
    for _ in 0..60 {
        let step = hello.tick();
        if let Some(to) = step.pulse_to {
            assert_eq!(to, 7);
            pulses.push(step.tick);
            hello.pulse_sent();
        }
        if step.echo {
            echoes.push(step.tick);
            hello.echo_delivered(&[TOPIC_ECHO, TOPIC_TICK_PULSE]);
        }
    }
    assert_eq!(pulses, vec![30, 60]);
    assert_eq!(echoes, vec![10, 20, 30, 40, 50, 60]);
    assert_eq!(hello.counters().summary(), (60, 2, 6));
}

#[test]
fn hello_without_tock_sends_no_pulse() {
    let mut hello = Hello::new(HelloCounters {
        ticks: 29,
        pulses_sent: 0,
        echos_received: 0,
    });
    let step = hello.tick();
    assert_eq!(step.tick, 30);
    assert_eq!(step.pulse_to, None);
    assert!(step.echo);
}

#[test]
fn tock_counts_pulses_and_keeps_the_highest_sequence() {
    let mut tock = Tock::new(TockCounters::default());
    assert_eq!(tock.name(), "tock");
    assert_eq!(tock.dependencies(), vec!["hello"]);
    tock.tick(&[(TOPIC_TICK_PULSE, 30), (TOPIC_ECHO, 99), (TOPIC_TICK_PULSE, 60)]);
    assert_eq!(tock.counters().summary(), (2, 60));
    tock.consume(TOPIC_TICK_PULSE, 10);
    assert_eq!(tock.counters().summary(), (3, 60));
}
