# oci_rootfs

Turns an OCI image into a root filesystem for a Firecracker VM: pulls the
image's layers from a registry, checks each against its SHA-256 digest,
unpacks it into a content-addressed store shared by all VMs, mounts the
layers with `fuse-overlayfs` and serves the merged tree with `virtiofsd`.

The library (`src/`) holds the decisions of that pipeline, each verified with
Verus against its contract:

- `lib.rs`: image references, the builder, the per-layer steps and tasks,
  the pull tally and its record, the finished root filesystem;
- `registry/`: manifest selection, token handshake, URLs, blob acceptance;
- `image/unpack.rs`: digest checking, and the guard on archive entries that
  keeps every write inside the layer's directory and off the archive's own links;
- `overlay/fuse.rs`: the `fuse-overlayfs` and `virtiofsd` command lines and
  the checks on the paths given to them;
- `store/`: the layout of the store on disk;
- `dashboard.rs`: the request rules of the local dashboard;
- `text.rs`: the character-level operations the contracts are written in.

`app/` performs the network, disk and process work around it: the
dashboard server (`main.rs`), the build loop (`pipeline.rs`), the registry
client, the archive unpacking and the mount/serve commands.
