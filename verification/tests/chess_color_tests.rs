use chess_threats::chess_color::ChessColor;
use chess_threats::rpc::{ExampleArgs, RpcRequest, RpcResponse, handle_rpc};

#[test]
fn test_get_opposite_color() {
    assert_eq!(
        ChessColor::White,
        ChessColor::Black.get_opposite_color(),
        "The opposite of black should be white."
    );
    assert_eq!(
        ChessColor::Black,
        ChessColor::White.get_opposite_color(),
        "The opposite of white should be black."
    );
}

#[test]
fn test_get_color_vector() {
    let colors = ChessColor::get_color_vector();
    assert_eq!(colors, vec![ChessColor::White, ChessColor::Black]);
}

#[test]
fn test_handle_rpc_example() {
    let request = RpcRequest::Example(ExampleArgs { a: 1, b: 2 });
    let RpcResponse::ExampleResult(result) = handle_rpc(&request);
    assert_eq!(result.res, 10);
}
