# qfiletrans

A file transfer service between the machines of a storage cluster.

* `src/` is the verified library:
  * `protocol`, `parser`, `stream`: the framed protocol (write-file and write-chunk requests
    and their responses), its encoders, the byte-level decoder and the reader that feeds it;
    `laws` proves that from any frame boundary every frame the encoders write decodes to its
    message and leaves the decoder waiting for the next frame, so a run of frames decodes
    message by message (also when fed straight to the decoder, byte by byte); that bytes before
    a start tag are skipped and a decoder waiting for a frame behaves as a fresh one on any
    later calls; that a run of bytes may be split into any number of reads, each cut inside a
    run of chunk bytes only sending that run's piece as two; and that chunk bytes arriving in
    any number of reads (or pieces) are sent one piece each, every piece starting where the
    last ended.
  * `file_manager`: the server's table of open files and its decisions on write-file and
    write-chunk requests, given the results of the file operations; the uploading client's
    transitions; and the dispatch of decoded messages to their handlers.
  * `file_info`, `transfer`: the 1024-byte header of the plain upload connection, the upload
    and removal requests, the receiver's buffering, the retry policy and where a retry looks
    for a file.
  * `model`, `web`: the web service's values and its access check.
  * `wire`, `text`, `channel`: big-endian fields through `byteorder`, the UTF-8 conversions
    of `std`, and the channel that decoded messages go to.
* `app/` holds the programs: the transfer server and uploader (`server`, `client`), the web
  service (`web`), and the I/O around the framed protocol.
* `tests/` runs the library on concrete frames, headers and settings.
