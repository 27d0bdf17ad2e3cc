use haval_tool::connection::{get_gateway, is_haval_hotspot, telnet_address};
use haval_tool::text::trim;
use haval_tool::watch::{
    judge_response, monitor_messages, read_response, watch_step, WatchEvent, WATCH_SECONDS,
};
use haval_tool::{ApiError, ConnectionState};

const INSTALLED: &str = "fb5f2f27be2de104ac2b192f3e874dda";
const ROLLED_BACK: &str = "fff66e9b3d962fa319c8068b5c1997cd";

#[test]
fn gateway_is_passed_on() {
    assert_eq!(get_gateway(Some("10.0.0.1".to_string())), Ok("10.0.0.1".to_string()));
    assert_eq!(get_gateway(None), Err(ApiError::GatewayNotFound));
    assert_eq!(telnet_address("10.0.0.1"), "10.0.0.1:23");
}

#[test]
fn hotspot_goes_by_the_gateways_prefix() {
    assert_eq!(is_haval_hotspot(Some("192.168.33.1".to_string())), Ok(()));
    assert_eq!(is_haval_hotspot(Some("192.168.33.".to_string())), Ok(()));
    for other in ["192.168.33", "192.168.3.31", "1192.168.33.1", ""] {
        assert_eq!(
            is_haval_hotspot(Some(other.to_string())),
            Err(ApiError::NotHavalHotspot(other.to_string()))
        );
    }
    assert_eq!(is_haval_hotspot(None), Err(ApiError::GatewayNotFound));
}

#[test]
fn one_connection_at_a_time() {
    let mut state: ConnectionState<u32> = ConnectionState::new();
    assert!(!state.is_connected());
    assert!(!state.disconnect());
    assert_eq!(state.stream(), Err(ApiError::NotConnected));
    assert_eq!(
        state.finish_connect(Err("refused".to_string())),
        Err(ApiError::Io("refused".to_string()))
    );
    assert!(!state.is_connected());
    assert_eq!(state.begin_connect(), Ok(()));
    assert_eq!(state.finish_connect(Ok(1)), Ok(()));
    assert!(state.is_connected());
    assert_eq!(state.begin_connect(), Err(ApiError::AlreadyConnected));
    assert_eq!(state.finish_connect(Ok(2)), Err(ApiError::AlreadyConnected));
    *state.stream().unwrap() += 10;
    assert_eq!(state.stream(), Ok(&mut 11));
    assert!(state.disconnect());
    assert!(!state.is_connected());
}

#[test]
fn markers_decide() {
    assert_eq!(judge_response(INSTALLED), Some(Ok(())));
    assert_eq!(judge_response(ROLLED_BACK), Some(Err(ApiError::RollbackDetected)));
    assert_eq!(judge_response("fb5f"), None);
    assert_eq!(judge_response(""), None);
}

#[test]
fn responses_ignore_case_and_blanks() {
    assert_eq!(read_response(b" \t HeLLo World\r\n"), "hello world");
    assert_eq!(read_response("\u{3000}ÀÉ\u{a0}\n".as_bytes()), "àé");
    assert_eq!(read_response(b"a\xffB\n"), "a\u{fffd}b");
    assert_eq!(read_response(b" \r\n"), "");
}

#[test]
fn white_space_is_what_unicode_says() {
    for c in '\0'..=char::MAX {
        let s = c.to_string();
        assert_eq!(trim(&s), s.trim());
    }
    assert_eq!(trim(" \u{2003}a b\t c\u{85}\r\n"), "a b\t c");
    assert_eq!(trim(""), "");
}

#[test]
fn lines_are_shown_and_judged() {
    let step = watch_step(WatchEvent::Read(
        format!("  {}\r\n", INSTALLED.to_uppercase()).into_bytes(),
    ));
    assert_eq!(step.show.as_deref(), Some(INSTALLED));
    assert_eq!(step.outcome, Some(Ok(())));
    let step = watch_step(WatchEvent::Read(format!("{}\n", ROLLED_BACK).into_bytes()));
    assert_eq!(step.show.as_deref(), Some(ROLLED_BACK));
    assert_eq!(step.outcome, Some(Err(ApiError::RollbackDetected)));
    let step = watch_step(WatchEvent::Read(b"Installing\n".to_vec()));
    assert_eq!(step.show.as_deref(), Some("installing"));
    assert_eq!(step.outcome, None);
}

#[test]
fn blank_lines_are_passed_over() {
    let step = watch_step(WatchEvent::Read(b"\r\n".to_vec()));
    assert_eq!(step.show, None);
    assert_eq!(step.outcome, None);
}

#[test]
fn lines_that_are_not_utf8_are_shown_and_decide_nothing() {
    let step = watch_step(WatchEvent::Read(b"\xff\n".to_vec()));
    assert_eq!(step.show.as_deref(), Some("\u{fffd}"));
    assert_eq!(step.outcome, None);
    let mut line = INSTALLED.as_bytes().to_vec();
    line.extend(b"\xc3\n");
    let step = watch_step(WatchEvent::Read(line));
    assert_eq!(step.show, Some(format!("{}\u{fffd}", INSTALLED)));
    assert_eq!(step.outcome, None);
}

#[test]
fn shown_lines_end_with_the_deciding_one() {
    let lines = ["Working", " ", ROLLED_BACK, "later"];
    let mut shown: Vec<String> = Vec::new();
    for line in lines {
        let step = watch_step(WatchEvent::Read(format!("{}\n", line).into_bytes()));
        shown.extend(step.show);
        if step.outcome.is_some() {
            break;
        }
    }
    assert_eq!(shown, vec!["working", ROLLED_BACK]);
}

#[test]
fn the_wait_ends_without_an_answer() {
    let closed = watch_step(WatchEvent::Read(Vec::new()));
    assert_eq!(closed.show, None);
    assert_eq!(closed.outcome, Some(Err(ApiError::NotConnected)));
    let failed = watch_step(WatchEvent::ReadFailed("reset".to_string()));
    assert_eq!(failed.outcome, Some(Err(ApiError::Io("reset".to_string()))));
    let late = watch_step(WatchEvent::TimedOut);
    assert_eq!(late.outcome, Some(Err(ApiError::Timeout)));
    assert_eq!(WATCH_SECONDS, 600);
}

#[test]
fn first_decisive_line_counts() {
    let lines = ["working", "", INSTALLED, ROLLED_BACK];
    let mut result = None;
    for line in lines {
        let step = watch_step(WatchEvent::Read(format!("{}\n", line).into_bytes()));
        if step.outcome.is_some() {
            result = step.outcome;
            break;
        }
    }
    assert_eq!(result, Some(Ok(())));
}

#[test]
fn monitor_greets() {
    assert_eq!(
        monitor_messages(),
        vec![
            "🚀 Monitor de telnet iniciado",
            "📡 Conectado ao sistema telnet",
            "⚡ Aguardando comandos e respostas...",
        ]
    );
}

#[test]
fn errors_have_their_messages() {
    let cases = [
        (
            ApiError::NotHavalHotspot("10.0.0.1".to_string()),
            "Não conectado ao hotspot do Haval (gateway 10.0.0.1 não inicia com '192.168.33.')",
        ),
        (ApiError::GatewayNotFound, "Falha ao obter o gateway da rede"),
        (ApiError::NotConnected, "A conexão Telnet não está estabelecida"),
        (ApiError::AlreadyConnected, "Já está conectado"),
        (
            ApiError::RollbackDetected,
            "Rollback detectado durante a verificação de instalação",
        ),
        (
            ApiError::Timeout,
            "A resposta esperada não foi recebida a tempo (timeout)",
        ),
        (ApiError::DownloadFailed, "Falha ao baixar o script de instalação"),
        (ApiError::Io("reset".to_string()), "Erro de I/O: reset"),
    ];
    for (error, message) in cases {
        assert_eq!(error.message(), message);
    }
}
