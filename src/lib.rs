/// The token language as mathematics: what one scan step yields, what a
/// whole scan yields, and the laws that hold of them.
pub mod grammar;
/// The executable lexer, proved to follow the token language.
pub mod lexer;
