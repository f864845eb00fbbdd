//! The packet grammar, one module for each of its parts.

pub mod base;
pub mod bit_len_operator;
pub mod literal;
pub mod operator;
pub mod operator_length_parser;
pub mod packet_num_operator;
pub mod return_info;
