use apogeo::acquisition::{
    connected_status, ingest_frame, record, step, waiting_status, Action, Event, Failure, Phase,
    CHUNK_SIZE, READ_TIMEOUT_MS,
};
use apogeo::buffer::SeriesBuffer;
use apogeo::line::Reading;
use apogeo::sample::Sample;

#[test]
fn a_session_connects_streams_and_stops() {
    let (p, a) = step(Phase::Idle, Event::Start);
    assert_eq!((p, a), (Phase::Connecting { port_open: false }, Action::OpenPort));
    let (p, a) = step(p, Event::PortOpened);
    assert_eq!((p, a), (Phase::Connecting { port_open: true }, Action::OpenLog));
    let (p, a) = step(p, Event::LogOpened { empty: true });
    assert_eq!((p, a), (Phase::Streaming, Action::Announce { write_header: true }));
    let (p, a) = step(p, Event::Received(b"5.5,21.0,33.0"));
    assert_eq!(p, Phase::Streaming);
    assert_eq!(
        a,
        Action::Record(Reading { thrust: 5_500_000, temp_ambient: 21_000_000, temp_nozzle: 33_000_000 })
    );
    let (p, a) = step(p, Event::Silent);
    assert_eq!((p, a), (Phase::Streaming, Action::Poll));
    let (p, a) = step(p, Event::StopRequested);
    assert_eq!((p, a), (Phase::Stopping, Action::Exit));
    let (p, a) = step(p, Event::Joined);
    assert_eq!((p, a), (Phase::Idle, Action::Rearm));
}

#[test]
fn a_log_that_holds_rows_gets_no_second_header() {
    let (p, a) = step(Phase::Connecting { port_open: true }, Event::LogOpened { empty: false });
    assert_eq!((p, a), (Phase::Streaming, Action::Announce { write_header: false }));
}

#[test]
fn a_port_that_does_not_open_ends_the_session() {
    let (p, a) = step(Phase::Connecting { port_open: false }, Event::PortFailed);
    assert_eq!((p, a), (Phase::Idle, Action::Report(Failure::PortOpenFailed)));
}

#[test]
fn a_log_that_does_not_open_ends_the_session() {
    let (p, a) = step(Phase::Connecting { port_open: true }, Event::LogFailed);
    assert_eq!((p, a), (Phase::Idle, Action::Report(Failure::FileOpenFailed)));
}

#[test]
fn a_malformed_chunk_is_dropped_and_the_stream_goes_on() {
    for chunk in [&b"5.5,21.0"[..], b"", b"garbage", b"1,2,x", b"1,2,3,4", b"\xff\xff"] {
        let (p, a) = step(Phase::Streaming, Event::Received(chunk));
        assert_eq!((p, a), (Phase::Streaming, Action::Poll));
    }
}

#[test]
fn starting_then_stopping_at_once_ends_within_four_events() {
    let mut phase = step(Phase::Idle, Event::Start).0;
    let events = [Event::PortOpened, Event::LogOpened { empty: true }, Event::StopRequested, Event::Joined];
    let mut last = Action::Ignore;
    let mut taken = 0;
    for e in events {
        if phase == Phase::Idle {
            break;
        }
        let (p, a) = step(phase, e);
        phase = p;
        last = a;
        taken += 1;
    }
    assert_eq!(phase, Phase::Idle);
    assert_eq!(last, Action::Rearm);
    assert!(taken <= 4);
}

#[test]
fn an_event_out_of_place_changes_nothing() {
    let phases = [
        Phase::Idle,
        Phase::Connecting { port_open: false },
        Phase::Connecting { port_open: true },
        Phase::Streaming,
        Phase::Stopping,
    ];
    for phase in phases {
        let stray = match phase {
            Phase::Idle => Event::Joined,
            Phase::Connecting { port_open: false } => Event::LogFailed,
            Phase::Connecting { port_open: true } => Event::PortOpened,
            Phase::Streaming => Event::Start,
            Phase::Stopping => Event::Silent,
        };
        assert_eq!(step(phase, stray), (phase, Action::Ignore));
    }
    assert_eq!(step(Phase::Idle, Event::Received(b"1,2,3")), (Phase::Idle, Action::Ignore));
    assert_eq!(step(Phase::Stopping, Event::StopRequested), (Phase::Stopping, Action::Ignore));
}

#[test]
fn record_makes_sample_row_and_status() {
    let reading = Reading { thrust: 5_500_000, temp_ambient: 21_000_000, temp_nozzle: 33_000_000 };
    let made = record(&reading, 61_001_500);
    assert_eq!(made.sample, Sample::new(61_001_500, 5_500_000, 21_000_000, 33_000_000));
    assert_eq!(String::from_utf8(made.row).unwrap(), "00:01:01:001,5.5,21,33");
    assert_eq!(String::from_utf8(made.status).unwrap(), "5.5 | 21 | 33");
}

#[test]
fn a_good_frame_is_appended_to_the_buffer() {
    let mut buffer = SeriesBuffer::with_capacity(2);
    let made = ingest_frame(&mut buffer, b"5.5,21.0,33.0\n", 1_000_000).unwrap();
    assert_eq!(buffer.snapshot(), vec![made.sample]);
    assert_eq!(made.sample.thrust as f64 / 1e6, 5.5);
    assert_eq!(made.sample.temp_ambient as f64 / 1e6, 21.0);
    assert_eq!(made.sample.temp_nozzle as f64 / 1e6, 33.0);
    assert_eq!(made.sample.time, 1_000_000);
    ingest_frame(&mut buffer, b"6,21,33", 2_000_000).unwrap();
    ingest_frame(&mut buffer, b"7,21,33", 3_000_000).unwrap();
    let held = buffer.snapshot();
    assert_eq!(held.len(), 2);
    assert_eq!(held[0].time, 2_000_000);
    assert_eq!(held[1].thrust, 7_000_000);
}

#[test]
fn a_frame_with_a_wrong_field_count_leaves_the_buffer_unchanged() {
    let mut buffer = SeriesBuffer::new();
    ingest_frame(&mut buffer, b"1,2,3", 5).unwrap();
    let before = buffer.snapshot();
    assert!(ingest_frame(&mut buffer, b"5.5,21.0", 10).is_none());
    assert!(ingest_frame(&mut buffer, b"", 10).is_none());
    assert!(ingest_frame(&mut buffer, b"5.5,21.0,x", 10).is_none());
    assert_eq!(buffer.snapshot(), before);
}

#[test]
fn status_texts_and_limits() {
    assert_eq!(waiting_status(), "Esperando datos...");
    assert_eq!(connected_status(), "Conexión exitosa, esperando datos...");
    assert_eq!(Failure::PortOpenFailed.message(), "Error al abrir el puerto");
    assert_eq!(Failure::FileOpenFailed.message(), "Error al abrir el archivo");
    assert_eq!(READ_TIMEOUT_MS, 100);
    assert_eq!(CHUNK_SIZE, 64);
}
