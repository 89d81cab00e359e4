//! Storage of the ballots of a voting: registering voters, storing their
//! encrypted ballots, decrypting and validating them, and tallying the
//! results per district.
pub mod keys;
pub mod choices;
pub mod paths;
pub mod ballot;
pub mod assoc;
pub mod tally;
pub mod decode;
pub mod storage;
pub mod consistency;
pub mod runs;
