//! Reading and characterizing DogStatsD traffic: raw text, replay captures and pcap
//! captures (each possibly Zstandard-compressed) are framed into DogStatsD lines, the lines
//! are parsed into metrics, events and service checks, and batches of them are summarized.
pub mod analysis;
pub mod dogstatsdmsg;
pub mod dogstatsdreader;
pub mod generate;
pub mod laws;
pub mod msgstats;
pub mod pcapreader;
pub mod rate;
pub mod replay;
pub mod scan;
pub mod zstd;
