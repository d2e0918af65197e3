//! Small, pure numeric routines with verified contracts:
//! Fibonacci numbers, Karatsuba multiplication and exponentiation by squaring.
//!
//! Every routine is a total function on its stated domain. The domain of each
//! is exactly the set of inputs whose result fits the integer width.

pub mod fibonacci;
pub mod karatsuba;
pub mod power;

pub use fibonacci::{fib, fib_iterative};
pub use karatsuba::karatsuba;
pub use power::recursive_pow;
