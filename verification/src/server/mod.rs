//! What the server does on its own: linking with the client's own file names,
//! talking to the torrent client, and standing in for the outside services.
pub mod files;
pub mod linker;
pub mod mock;
pub mod qbittorrent;
