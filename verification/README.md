# boardswarm_qdl

Support for flashing Qualcomm boards in emergency download mode (EDL) through
volume targets.

- `src/` is the verified library: reading rawprogram and patch files, resolving
  sector expressions, planning writes and patches, the order in which a device is
  flashed, the upload of the Firehose programmer, and the choice of devices to
  offer. Its laws are the public proof functions whose names start with `law_`.
- `tests/` runs it on concrete values.
- `app/` is what surrounds it: files, progress, the client's targets, the session
  thread, the server and the qdl crate.
