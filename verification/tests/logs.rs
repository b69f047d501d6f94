use chess_game::logger::{generate_file_name, level_color, Level, LevelFilter, LogColor, LoggerConfig};
use chess_game::networking::{check_peek, frame, IoKind, SocketError, HEADER_SIZE};
use chess_game::message::{ClientMessage, ServerMessage};
use chess_game::server::proxy::{ClientProxy, NetworkError};
use chess_game::threading::Channel;

#[test]
fn file_names() {
    assert_eq!(generate_file_name(Some("src/logger.rs"), "shared::logger"), "shared::logger.rs");
    assert_eq!(generate_file_name(Some("src\\game\\mod.rs"), "server::game_manager"), "server::game_manager::mod.rs");
    assert_eq!(generate_file_name(None, "server"), "server::Unknown file");
    assert_eq!(generate_file_name(Some("a/b\\main.rs"), "main"), "main.rs");
}

#[test]
fn log_demo() {
    let msgs = chess_game::logger::test();
    assert_eq!(msgs.len(), 26 + 1 + 1 + 1 + 2 + 6 + 2);
    assert_eq!(msgs[0], (Level::Trace, "loading: 0%, very verbose debbuging information".to_string()));
    assert_eq!(msgs.last().unwrap(), &(Level::Info, "have a good time!".to_string()));
    assert!(msgs.contains(&(Level::Error, "HATCHOOO!".to_string())));
    assert!(msgs.contains(&(Level::Trace, "loading: 100%, very verbose debbuging information".to_string())));
}

#[test]
fn log_colors() {
    assert_eq!(level_color(Level::Trace), LogColor::Normal);
    assert_eq!(level_color(Level::Debug), LogColor::Cyan);
    assert_eq!(level_color(Level::Info), LogColor::Green);
    assert_eq!(level_color(Level::Warn), LogColor::Yellow);
    assert_eq!(level_color(Level::Error), LogColor::Red);
}

#[test]
fn logger_config() {
    let cfg = LoggerConfig::default().set_level(LevelFilter::Debug).add_filter("ggez", LevelFilter::Warn);
    assert_eq!(cfg.level(), LevelFilter::Debug);
    assert_eq!(cfg.filter_count(), 1);
    let (name, level) = cfg.filter(0);
    assert_eq!(name, "ggez");
    assert_eq!(level, LevelFilter::Warn);
}

#[test]
fn framing() {
    assert_eq!(HEADER_SIZE, 8);
    assert_eq!(frame(vec![3, 0, 0, 0, 0, 0, 0, 0], vec![1, 2, 3]), Ok(vec![3, 0, 0, 0, 0, 0, 0, 0, 1, 2, 3]));
    assert!(matches!(frame(vec![3, 0], vec![1, 2, 3]), Err(SocketError::Serialization(_))));
    assert_eq!(check_peek(8, 8), Ok(()));
    assert_eq!(check_peek(3, 8), Err(SocketError::StreamRead(IoKind::WouldBlock)));
}

#[test]
fn proxy_decisions() {
    let (proxy_end, mut server_end) = Channel::<ClientMessage, ServerMessage>::new_pair();
    let mut proxy = ClientProxy::new(proxy_end);
    assert!(proxy.is_running());
    assert_eq!(ClientProxy::reply_to(&ClientMessage::Ping), Some(ServerMessage::Pong));
    assert_eq!(ClientProxy::reply_to(&ClientMessage::Pong), None);

    assert_eq!(proxy.forward_to_server(ClientMessage::Text("hi".to_string())), Ok(()));
    assert_eq!(server_end.recv().unwrap(), ClientMessage::Text("hi".to_string()));

    assert!(proxy.next_for_client().is_none());
    server_end.send(ServerMessage::Ping).unwrap();
    assert_eq!(proxy.next_for_client(), Some(ServerMessage::Ping));

    assert_eq!(proxy.client_read_failed(SocketError::StreamRead(IoKind::WouldBlock)), Ok(()));
    assert!(proxy.is_running());
    assert_eq!(
        proxy.client_read_failed(SocketError::StreamRead(IoKind::ConnectionReset)),
        Err(NetworkError::Socket(SocketError::StreamRead(IoKind::ConnectionReset)))
    );
    assert!(!proxy.is_running());

    let (proxy_end, server_end) = Channel::<ClientMessage, ServerMessage>::new_pair();
    let mut proxy = ClientProxy::new(proxy_end);
    drop(server_end);
    assert!(matches!(proxy.forward_to_server(ClientMessage::Ping), Err(NetworkError::ChannelSend(_))));
    assert!(!proxy.is_running());
}
