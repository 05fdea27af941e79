use semtex::client::complete_search;
use semtex::client::ClientError;
use semtex::client::TransportOutcome;

#[test]
fn body_is_returned_unmodified() {
    let body = "  {\"search\": [{\"id\": \"Q76\"}]}\n".to_string();
    let result = complete_search(TransportOutcome::Body(body.clone()));
    assert_eq!(result, Ok(body));
}

#[test]
fn connect_failure_is_a_transport_error() {
    let result = complete_search(TransportOutcome::ConnectFailed);
    assert_eq!(result, Err(ClientError::TransportError));
}

#[test]
fn body_read_failure_is_a_read_error() {
    let result = complete_search(TransportOutcome::BodyReadFailed);
    assert_eq!(result, Err(ClientError::ResponseReadError));
}

#[test]
fn error_messages_name_the_failure() {
    assert_eq!(
        ClientError::TransportError.message(),
        "could not send the request or reach the server"
    );
    assert_eq!(
        ClientError::ResponseReadError.message(),
        "could not read the response body"
    );
}
